//! Base64: bytes are taken three at a time, their 24 bits are cut into four
//! groups of six, and each group is written as one character of an alphabet.
//! A last block of one or two bytes is filled up with zero bits and written
//! as two or three characters, followed by padding characters up to four.
//!
//! ```text
//! bytes         A        B        C
//! bits   01000001 01000010 01000011
//! groups 010000 010100 001001 000011
//! text        Q      U      J      D
//! ```
use vstd::prelude::*;

verus! {

/// What an alphabet has to offer: a character for each six-bit index, the
/// index back for each character, and a character for padding.
///
/// An alphabet says in its three specification functions what its three
/// methods return. The codec is specified over those functions, so what it
/// promises of an alphabet holds as far as the alphabet keeps its word.
pub trait Alphabet {
    /// The character that stands for `index`, if the alphabet has one.
    spec fn char_for_index(&self, index: u8) -> Option<char>;

    /// The index that `character` stands for, if it stands for one.
    spec fn index_for_char(&self, character: char) -> Option<u8>;

    /// The character that fills up a last, short group of four.
    spec fn padding_char(&self) -> char;

    /// Looks up the character for an index.
    fn get_char_for_index(&self, index: u8) -> (character: Option<char>)
        ensures
            character == self.char_for_index(index),
    ;

    /// Looks up the index of a character.
    fn get_index_for_char(&self, character: char) -> (index: Option<u8>)
        ensures
            index == self.index_for_char(character),
    ;

    /// Gives the padding character.
    fn get_padding_char(&self) -> (character: char)
        ensures
            character == self.padding_char(),
    ;
}

/// The alphabet of RFC 4648: `A`-`Z`, `a`-`z`, `0`-`9`, `+`, `/`, padded
/// with `=`.
pub struct Classic;

/// The classic character for `index`: defined for the indices 0 to 63.
pub open spec fn classic_char(index: u8) -> Option<char> {
    if index <= 25 {
        Some((index + 65) as char)
    } else if index <= 51 {
        Some((index + 71) as char)
    } else if index <= 61 {
        Some((index - 4) as char)
    } else if index == 62 {
        Some('+')
    } else if index == 63 {
        Some('/')
    } else {
        None
    }
}

/// The classic index of `character`. Only the low eight bits of its code
/// point are looked at, so a character beyond U+00FF counts as the one whose
/// code point it shares modulo 256.
pub open spec fn classic_index(character: char) -> Option<u8> {
    let low = (character as u32) % 0x100;
    if 65 <= low <= 90 {
        Some((low - 65) as u8)
    } else if 97 <= low <= 122 {
        Some((low - 71) as u8)
    } else if 48 <= low <= 57 {
        Some((low + 4) as u8)
    } else if low == 43 {
        Some(62u8)
    } else if low == 47 {
        Some(63u8)
    } else {
        None
    }
}

impl Alphabet for Classic {
    open spec fn char_for_index(&self, index: u8) -> Option<char> {
        classic_char(index)
    }

    open spec fn index_for_char(&self, character: char) -> Option<u8> {
        classic_index(character)
    }

    open spec fn padding_char(&self) -> char {
        '='
    }

    fn get_char_for_index(&self, index: u8) -> (character: Option<char>) {
        let ascii_index: u8 = if index <= 25 {
            index + 65
        } else if index <= 51 {
            index + 71
        } else if index <= 61 {
            index - 4
        } else if index == 62 {
            43
        } else if index == 63 {
            47
        } else {
            return None;
        };
        Some(ascii_index as char)
    }

    fn get_index_for_char(&self, character: char) -> (index: Option<u8>) {
        let low: u32 = (character as u32) % 0x100;
        let base64_index: u32 = if 65 <= low && low <= 90 {
            low - 65
        } else if 97 <= low && low <= 122 {
            low - 71
        } else if 48 <= low && low <= 57 {
            low + 4
        } else if low == 43 {
            62
        } else if low == 47 {
            63
        } else {
            return None;
        };
        Some(base64_index as u8)
    }

    fn get_padding_char(&self) -> (character: char) {
        '='
    }
}

/// Why a text was not decoded.
#[derive(Debug, Clone, Copy, PartialEq, Eq, Structural)]
pub enum DecodeError {
    /// The number of characters is no multiple of four.
    InvalidInput,
}

/// The six-bit groups of a block of one to three bytes: the block is filled
/// up with zero bytes to three, its 24 bits are cut into four groups, and one
/// group more than the block has bytes is kept.
pub open spec fn sextets(chunk: Seq<u8>) -> Seq<u8> {
    let b0 = chunk[0];
    let b1 = if chunk.len() > 1 {
        chunk[1]
    } else {
        0u8
    };
    let b2 = if chunk.len() > 2 {
        chunk[2]
    } else {
        0u8
    };
    seq![
        b0 / 4,
        ((b0 % 4) * 16 + b1 / 16) as u8,
        ((b1 % 16) * 4 + b2 / 64) as u8,
        b2 % 64,
    ].take(chunk.len() as int + 1)
}

/// The four characters for a group of at most four indices: the alphabet's
/// character where it has one for the index, and the padding character where
/// it has none or the group has run out.
pub open spec fn chunk_chars<T: Alphabet>(alphabet: &T, chunk: Seq<u8>) -> Seq<char> {
    Seq::new(
        4,
        |i: int|
            if i < chunk.len() && alphabet.char_for_index(chunk[i]) is Some {
                alphabet.char_for_index(chunk[i])->Some_0
            } else {
                alphabet.padding_char()
            },
    )
}

/// The text for `data`: four characters for every block of three bytes, the
/// last block being shorter where the length is no multiple of three.
pub open spec fn encoded<T: Alphabet>(alphabet: &T, data: Seq<u8>) -> Seq<char>
    decreases data.len(),
{
    if data.len() == 0 {
        Seq::empty()
    } else if data.len() <= 3 {
        chunk_chars(alphabet, sextets(data))
    } else {
        chunk_chars(alphabet, sextets(data.take(3))) + encoded(alphabet, data.skip(3))
    }
}

/// The indices that a group of characters stands for: padding characters
/// are left out, every other character gives its index.
pub open spec fn indices<T: Alphabet>(alphabet: &T, chunk: Seq<char>) -> Seq<u8> {
    chunk.filter_map(
        |character: char|
            if character == alphabet.padding_char() {
                None
            } else {
                alphabet.index_for_char(character)
            },
    )
}

/// Every character of the group is a padding character or has an index.
pub open spec fn known<T: Alphabet>(alphabet: &T, chunk: Seq<char>) -> bool {
    forall|i: int|
        0 <= i < chunk.len() && #[trigger] chunk[i] != alphabet.padding_char()
            ==> alphabet.index_for_char(chunk[i]) is Some
}

/// The bytes that two to four indices are joined to: the low six bits of
/// each index are laid end to end and cut into bytes. Two indices give two
/// bytes and three or four give three, the last one filled up with zero bits.
/// Bits of an index above its low six, and for the fourth index all eight
/// of them, are merged in where they fall.
pub open spec fn stitched(bytes: Seq<u8>) -> Seq<u8> {
    if bytes.len() == 2 {
        seq![((bytes[0] & 0b0011_1111) << 2) | (bytes[1] >> 4), (bytes[1] & 0b0000_1111) << 4]
    } else if bytes.len() == 3 {
        seq![
            ((bytes[0] & 0b0011_1111) << 2) | (bytes[1] >> 4),
            ((bytes[1] & 0b0000_1111) << 4) | (bytes[2] >> 2),
            (bytes[2] & 0b0000_0011) << 6,
        ]
    } else {
        seq![
            ((bytes[0] & 0b0011_1111) << 2) | (bytes[1] >> 4),
            ((bytes[1] & 0b0000_1111) << 4) | (bytes[2] >> 2),
            ((bytes[2] & 0b0000_0011) << 6) | (bytes[3] & 0b0011_1111),
        ]
    }
}

/// The sequence without its zero bytes, the others in their order.
pub open spec fn without_zeros(bytes: Seq<u8>) -> Seq<u8> {
    bytes.filter(|byte: u8| byte > 0)
}

/// The bytes that one group of four characters decodes to.
pub open spec fn decoded_chunk<T: Alphabet>(alphabet: &T, chunk: Seq<char>) -> Seq<u8> {
    without_zeros(stitched(indices(alphabet, chunk)))
}

/// The bytes that a text decodes to, group by group.
pub open spec fn decoded<T: Alphabet>(alphabet: &T, data: Seq<char>) -> Seq<u8>
    decreases data.len(),
{
    if data.len() < 4 {
        Seq::empty()
    } else {
        decoded_chunk(alphabet, data.take(4)) + decoded(alphabet, data.skip(4))
    }
}

/// A group of four characters can be decoded: each is a padding character
/// or has an index, and at least two are no padding.
pub open spec fn chunk_decodable<T: Alphabet>(alphabet: &T, chunk: Seq<char>) -> bool {
    &&& known(alphabet, chunk)
    &&& indices(alphabet, chunk).len() >= 2
}

/// Every group of four characters of the text can be decoded.
pub open spec fn decodable<T: Alphabet>(alphabet: &T, data: Seq<char>) -> bool {
    forall|k: int|
        0 <= k < data.len() / 4 ==> chunk_decodable(
            alphabet,
            #[trigger] data.subrange(4 * k, 4 * k + 4),
        )
}

/// The alphabet loses nothing: every six-bit index has a character, which
/// is no padding and has that index.
pub open spec fn faithful<T: Alphabet>(alphabet: &T) -> bool {
    forall|index: u8|
        index < 64 ==> {
            &&& (#[trigger] alphabet.char_for_index(index)) is Some
            &&& alphabet.char_for_index(index)->Some_0 != alphabet.padding_char()
            &&& alphabet.index_for_char(alphabet.char_for_index(index)->Some_0) == Some(index)
        }
}

/// Cuts a block of one to three bytes into its six-bit groups.
pub fn split(chunk: &[u8]) -> (groups: Vec<u8>)
    requires
        1 <= chunk@.len() <= 3,
    ensures
        groups@ == sextets(chunk@),
{
    let b0: u8 = chunk[0];
    let mut groups: Vec<u8> = Vec::new();
    if chunk.len() == 1 {
        assert(b0 >> 2 == b0 / 4 && (b0 & 0b0000_0011) << 4 == (b0 % 4) * 16) by (bit_vector);
        groups.push(b0 >> 2);
        groups.push((b0 & 0b0000_0011) << 4);
    } else if chunk.len() == 2 {
        let b1: u8 = chunk[1];
        assert(b0 >> 2 == b0 / 4 && (b0 & 0b0000_0011) << 4 | b1 >> 4 == (b0 % 4) * 16 + b1 / 16
            && (b1 & 0b0000_1111) << 2 == (b1 % 16) * 4) by (bit_vector);
        groups.push(b0 >> 2);
        groups.push((b0 & 0b0000_0011) << 4 | b1 >> 4);
        groups.push((b1 & 0b0000_1111) << 2);
    } else {
        let b1: u8 = chunk[1];
        let b2: u8 = chunk[2];
        assert(b0 >> 2 == b0 / 4 && (b0 & 0b0000_0011) << 4 | b1 >> 4 == (b0 % 4) * 16 + b1 / 16
            && (b1 & 0b0000_1111) << 2 | b2 >> 6 == (b1 % 16) * 4 + b2 / 64 && b2 & 0b0011_1111
            == b2 % 64) by (bit_vector);
        groups.push(b0 >> 2);
        groups.push((b0 & 0b0000_0011) << 4 | b1 >> 4);
        groups.push((b1 & 0b0000_1111) << 2 | b2 >> 6);
        groups.push(b2 & 0b0011_1111);
    }
    groups
}

/// Writes a group of at most four indices as four characters, with padding
/// in the places that the group leaves open.
pub fn encode_chunk<T: Alphabet>(alphabet: &T, chunk: Vec<u8>) -> (out: Vec<char>)
    requires
        chunk@.len() <= 4,
    ensures
        out@ == chunk_chars(alphabet, chunk@),
{
    let padding = alphabet.get_padding_char();
    let mut out: Vec<char> = Vec::new();
    let mut i: usize = 0;
    while i < 4
        invariant
            i <= 4,
            chunk@.len() <= 4,
            padding == alphabet.padding_char(),
            out@ == chunk_chars(alphabet, chunk@).take(i as int),
        decreases 4 - i,
    {
        let mut character = padding;
        if i < chunk.len() {
            if let Some(found) = alphabet.get_char_for_index(chunk[i]) {
                character = found;
            }
        }
        out.push(character);
        i = i + 1;
    }
    out
}

/// Appends one character to a string.
///
/// This is `String::push` of the standard library, which is documented to
/// append the given character to the end of the string. Nothing is proved of
/// it here.
pub assume_specification[ String::push ](text: &mut String, character: char)
    ensures
        final(text)@ == old(text)@.push(character),
;

/// Encodes `data` with the given alphabet.
pub fn encode_using_alphabet<T: Alphabet>(alphabet: &T, data: &[u8]) -> (text: String)
    ensures
        text@ == encoded(alphabet, data@),
{
    let mut text = String::new();
    let mut start: usize = 0;
    assert(data@.skip(0) =~= data@);
    while start < data.len()
        invariant
            start <= data@.len(),
            text@ + encoded(alphabet, data@.skip(start as int)) == encoded(alphabet, data@),
        decreases data@.len() - start,
    {
        let end: usize = if data.len() - start <= 3 {
            data.len()
        } else {
            start + 3
        };
        let ghost rest = data@.skip(start as int);
        let chars = encode_chunk(alphabet, split(vstd::slice::slice_subrange(data, start, end)));
        proof {
            assert(data@.subrange(start as int, end as int) =~= rest.take(end - start));
            if end < data@.len() {
                assert(rest.skip(3) =~= data@.skip(end as int));
            }
        }
        let ghost before = text@;
        let mut i: usize = 0;
        while i < 4
            invariant
                i <= 4,
                chars@.len() == 4,
                text@ == before + chars@.take(i as int),
            decreases 4 - i,
        {
            text.push(chars[i]);
            i = i + 1;
        }
        start = end;
    }
    text
}

/// Encodes `data` with the classic alphabet.
pub fn encode(data: &[u8]) -> (text: String)
    ensures
        text@ == encoded(&Classic, data@),
{
    let classic_alphabet = Classic;
    encode_using_alphabet(&classic_alphabet, data)
}

/// Looks up the index of every character of the group that is no padding.
pub fn original<T: Alphabet>(alphabet: &T, chunk: &[char]) -> (found: Vec<u8>)
    requires
        known(alphabet, chunk@),
    ensures
        found@ == indices(alphabet, chunk@),
{
    let padding = alphabet.get_padding_char();
    let mut found: Vec<u8> = Vec::new();
    let mut i: usize = 0;
    while i < chunk.len()
        invariant
            i <= chunk@.len(),
            known(alphabet, chunk@),
            padding == alphabet.padding_char(),
            found@ == indices(alphabet, chunk@.take(i as int)),
        decreases chunk@.len() - i,
    {
        let character = chunk[i];
        proof {
            let next = chunk@.take(i + 1);
            assert(next.drop_last() =~= chunk@.take(i as int));
        }
        if character != padding {
            found.push(
                alphabet.get_index_for_char(character).expect(
                    "unable to find character in alphabet",
                ),
            );
        }
        i = i + 1;
    }
    assert(chunk@.take(i as int) =~= chunk@);
    found
}

/// Joins two to four indices to bytes and drops the zero bytes among them,
/// which is how the bits that filled up a last block disappear.
pub fn stitch(bytes: Vec<u8>) -> (out: Vec<u8>)
    requires
        2 <= bytes@.len() <= 4,
    ensures
        out@ == without_zeros(stitched(bytes@)),
{
    let mut joined: Vec<u8> = Vec::new();
    joined.push((bytes[0] & 0b0011_1111) << 2 | bytes[1] >> 4);
    if bytes.len() == 2 {
        joined.push((bytes[1] & 0b0000_1111) << 4);
    } else if bytes.len() == 3 {
        joined.push((bytes[1] & 0b0000_1111) << 4 | bytes[2] >> 2);
        joined.push((bytes[2] & 0b0000_0011) << 6);
    } else {
        joined.push((bytes[1] & 0b0000_1111) << 4 | bytes[2] >> 2);
        joined.push((bytes[2] & 0b0000_0011) << 6 | bytes[3] & 0b0011_1111);
    }
    assert(joined@ =~= stitched(bytes@));
    let mut out: Vec<u8> = Vec::new();
    let mut i: usize = 0;
    assert(without_zeros(Seq::<u8>::empty()) =~= Seq::<u8>::empty()) by {
        reveal(Seq::filter);
    }
    while i < joined.len()
        invariant
            i <= joined@.len(),
            out@ == without_zeros(joined@.take(i as int)),
        decreases joined@.len() - i,
    {
        let byte: u8 = joined[i];
        proof {
            assert(joined@.take(i + 1) =~= joined@.take(i as int).push(byte));
            joined@.take(i as int).lemma_filter_push(byte, |byte: u8| byte > 0);
        }
        if byte > 0 {
            out.push(byte);
        }
        i = i + 1;
    }
    assert(joined@.take(i as int) =~= joined@);
    out
}

/// Tells whether a group of characters can be decoded.
pub fn chunk_is_decodable<T: Alphabet>(alphabet: &T, chunk: &[char]) -> (ok: bool)
    ensures
        ok == chunk_decodable(alphabet, chunk@),
{
    let padding = alphabet.get_padding_char();
    let mut count: usize = 0;
    let mut i: usize = 0;
    while i < chunk.len()
        invariant
            i <= chunk@.len(),
            padding == alphabet.padding_char(),
            known(alphabet, chunk@.take(i as int)),
            count == indices(alphabet, chunk@.take(i as int)).len(),
            count <= i,
        decreases chunk@.len() - i,
    {
        let character = chunk[i];
        proof {
            let next = chunk@.take(i + 1);
            assert(next.drop_last() =~= chunk@.take(i as int));
            assert forall|j: int| 0 <= j < i implies next[j] == chunk@.take(i as int)[j] by {}
        }
        if character != padding {
            if alphabet.get_index_for_char(character).is_none() {
                return false;
            }
            count = count + 1;
        }
        i = i + 1;
    }
    assert(chunk@.take(i as int) =~= chunk@);
    count >= 2
}

/// Tells whether `decode_using_alphabet` can be called on the text: its
/// length is no multiple of four, so that it will be refused, or each of its
/// groups of four can be decoded.
pub fn can_decode_using_alphabet<T: Alphabet>(alphabet: &T, data: &String) -> (ok: bool)
    ensures
        ok == (data@.len() % 4 == 0 ==> decodable(alphabet, data@)),
{
    let chars = chars_of(data);
    if chars.len() % 4 != 0 {
        return true;
    }
    let mut start: usize = 0;
    while start < chars.len()
        invariant
            chars@ == data@,
            chars@.len() % 4 == 0,
            start % 4 == 0,
            start <= chars@.len(),
            forall|k: int|
                0 <= k < start / 4 ==> chunk_decodable(
                    alphabet,
                    #[trigger] chars@.subrange(4 * k, 4 * k + 4),
                ),
        decreases chars@.len() - start,
    {
        let chunk = vstd::slice::slice_subrange(chars.as_slice(), start, start + 4);
        if !chunk_is_decodable(alphabet, chunk) {
            proof {
                let k = start as int / 4;
                assert(chars@.subrange(4 * k, 4 * k + 4) == chunk@);
            }
            return false;
        }
        start = start + 4;
    }
    true
}

/// Tells whether `decode` can be called on the text: its length is no
/// multiple of four, so that it will be refused, or each of its groups of
/// four can be decoded.
pub fn can_decode(bytes: &String) -> (ok: bool)
    ensures
        ok == (bytes@.len() % 4 == 0 ==> decodable(&Classic, bytes@)),
{
    let alphabet = Classic;
    can_decode_using_alphabet(&alphabet, bytes)
}

/// Decodes a text with the given alphabet.
///
/// A text whose number of characters is no multiple of four is refused.
/// Any other text must be made of groups that can be decoded.
pub fn decode_using_alphabet<T: Alphabet>(alphabet: T, data: &String) -> (result: Result<
    Vec<u8>,
    DecodeError,
>)
    requires
        data@.len() % 4 == 0 ==> decodable(&alphabet, data@),
    ensures
        data@.len() % 4 != 0 ==> result == Err::<Vec<u8>, DecodeError>(DecodeError::InvalidInput),
        data@.len() % 4 == 0 ==> result is Ok && result->Ok_0@ == decoded(&alphabet, data@),
{
    let chars = chars_of(data);
    if chars.len() % 4 != 0 {
        return Err(DecodeError::InvalidInput);
    }
    let mut out: Vec<u8> = Vec::new();
    let mut start: usize = 0;
    assert(chars@.skip(0) =~= chars@);
    while start < chars.len()
        invariant
            chars@ == data@,
            chars@.len() % 4 == 0,
            start % 4 == 0,
            start <= chars@.len(),
            decodable(&alphabet, chars@),
            out@ + decoded(&alphabet, chars@.skip(start as int)) == decoded(&alphabet, chars@),
        decreases chars@.len() - start,
    {
        let ghost rest = chars@.skip(start as int);
        let ghost before = out@;
        let chunk = vstd::slice::slice_subrange(chars.as_slice(), start, start + 4);
        proof {
            let k = start as int / 4;
            assert(chars@.subrange(4 * k, 4 * k + 4) == chunk@);
            assert(chunk@ =~= rest.take(4));
            assert(rest.skip(4) =~= chars@.skip(start + 4));
            lemma_indices_len(&alphabet, chunk@);
        }
        let mut bytes = stitch(original(&alphabet, chunk));
        out.append(&mut bytes);
        start = start + 4;
    }
    Ok(out)
}

/// Decodes a text with the classic alphabet.
///
/// A text whose number of characters is no multiple of four is refused.
/// Any other text must be made of groups that can be decoded.
pub fn decode(bytes: &String) -> (result: Result<Vec<u8>, DecodeError>)
    requires
        bytes@.len() % 4 == 0 ==> decodable(&Classic, bytes@),
    ensures
        bytes@.len() % 4 != 0 ==> result == Err::<Vec<u8>, DecodeError>(DecodeError::InvalidInput),
        bytes@.len() % 4 == 0 ==> result is Ok && result->Ok_0@ == decoded(&Classic, bytes@),
{
    let alphabet = Classic;
    decode_using_alphabet(alphabet, bytes)
}

/// The characters of a text, one by one.
fn chars_of(data: &String) -> (chars: Vec<char>)
    ensures
        chars@ == data@,
{
    let mut chars: Vec<char> = Vec::new();
    for character in iter: data.as_str().chars()
        invariant
            iter.seq() == data@,
            chars@ == iter.seq().take(iter.index() as int),
    {
        chars.push(character);
    }
    chars
}

/// The classic alphabet is one to one on the indices 0 to 63: the index of
/// the character for an index is that index.
pub proof fn lemma_classic_index_of_char(index: u8)
    requires
        index < 64,
    ensures
        classic_char(index) is Some,
        classic_index(classic_char(index)->Some_0) == Some(index),
        classic_char(index)->Some_0 != '=',
{
}

/// Whatever its argument, the classic alphabet gives an index below 64.
pub proof fn lemma_classic_index_is_sextet(character: char)
    ensures
        classic_index(character) matches Some(index) ==> index < 64 && classic_char(index)
            is Some,
{
}

/// The classic alphabet loses nothing.
pub proof fn lemma_classic_is_faithful()
    ensures
        faithful(&Classic),
{
    assert forall|index: u8| index < 64 implies {
        &&& (#[trigger] Classic.char_for_index(index)) is Some
        &&& Classic.char_for_index(index)->Some_0 != Classic.padding_char()
        &&& Classic.index_for_char(Classic.char_for_index(index)->Some_0) == Some(index)
    } by {
        lemma_classic_index_of_char(index);
    }
}

/// A group stands for at most as many indices as it has characters.
pub proof fn lemma_indices_len<T: Alphabet>(alphabet: &T, chunk: Seq<char>)
    ensures
        indices(alphabet, chunk).len() <= chunk.len(),
    decreases chunk.len(),
{
    if chunk.len() > 0 {
        lemma_indices_len(alphabet, chunk.drop_last());
    }
}

/// Every text has four characters for each block of three bytes, a last
/// shorter block counted as one.
pub proof fn lemma_encoded_len<T: Alphabet>(alphabet: &T, data: Seq<u8>)
    ensures
        encoded(alphabet, data).len() == 4 * ((data.len() + 2) / 3),
    decreases data.len(),
{
    if data.len() > 3 {
        lemma_encoded_len(alphabet, data.skip(3));
    }
}

/// Joining is regrouping: two to four indices below 64, laid end to end as
/// the six-bit digits of a number of 24 bits, with zeros for those that are
/// missing, are joined to the first two or three bytes of that number.
pub proof fn lemma_stitched_regroups(bytes: Seq<u8>)
    requires
        2 <= bytes.len() <= 4,
        forall|i: int| 0 <= i < bytes.len() ==> bytes[i] < 64,
    ensures
        ({
            let s2 = if bytes.len() > 2 {
                bytes[2]
            } else {
                0u8
            };
            let s3 = if bytes.len() > 3 {
                bytes[3]
            } else {
                0u8
            };
            let number = bytes[0] * 0x4_0000 + bytes[1] * 0x1000 + s2 * 0x40 + s3;
            stitched(bytes) == seq![
                (number / 0x1_0000) as u8,
                (number / 0x100 % 0x100) as u8,
                (number % 0x100) as u8,
            ].take(
                if bytes.len() == 2 {
                    2
                } else {
                    3
                },
            )
        }),
{
    let s0 = bytes[0];
    let s1 = bytes[1];
    let s2 = if bytes.len() > 2 {
        bytes[2]
    } else {
        0u8
    };
    let s3 = if bytes.len() > 3 {
        bytes[3]
    } else {
        0u8
    };
    let number: u32 = (s0 * 0x4_0000 + s1 * 0x1000 + s2 * 0x40 + s3) as u32;
    assert(((s0 & 0b0011_1111) << 2) | (s1 >> 4) == number / 0x1_0000 && ((s1 & 0b0000_1111) << 4)
        | (s2 >> 2) == number / 0x100 % 0x100 && ((s2 & 0b0000_0011) << 6) | (s3 & 0b0011_1111)
        == number % 0x100 && (s2 == 0 ==> (s1 & 0b0000_1111) << 4 == number / 0x100 % 0x100) && (s3
        == 0 ==> (s2 & 0b0000_0011) << 6 == number % 0x100)) by (bit_vector)
        requires
            s0 < 64,
            s1 < 64,
            s2 < 64,
            s3 < 64,
            number == s0 * 0x4_0000 + s1 * 0x1000 + s2 * 0x40 + s3,
    ;
    assert(stitched(bytes) =~= seq![
        (number / 0x1_0000) as u8,
        (number / 0x100 % 0x100) as u8,
        (number % 0x100) as u8,
    ].take(
        if bytes.len() == 2 {
            2
        } else {
            3
        },
    ));
}

/// A block of one to three bytes has one six-bit group more than it has
/// bytes, and joining the groups gives the bytes back, followed by a zero
/// byte if the block was short.
pub proof fn lemma_stitched_sextets(chunk: Seq<u8>)
    requires
        1 <= chunk.len() <= 3,
    ensures
        sextets(chunk).len() == chunk.len() + 1,
        forall|i: int| 0 <= i < sextets(chunk).len() ==> #[trigger] sextets(chunk)[i] < 64,
        stitched(sextets(chunk)) == if chunk.len() == 3 {
            chunk
        } else {
            chunk.push(0u8)
        },
{
    let b0 = chunk[0];
    let b1 = if chunk.len() > 1 {
        chunk[1]
    } else {
        0u8
    };
    let b2 = if chunk.len() > 2 {
        chunk[2]
    } else {
        0u8
    };
    let s0: u8 = b0 / 4;
    let s1: u8 = ((b0 % 4) * 16 + b1 / 16) as u8;
    let s2: u8 = ((b1 % 16) * 4 + b2 / 64) as u8;
    let s3: u8 = b2 % 64;
    assert(s0 < 64 && s1 < 64 && s2 < 64 && s3 < 64 && ((s0 & 0b0011_1111) << 2) | (s1 >> 4) == b0
        && ((s1 & 0b0000_1111) << 4) | (s2 >> 2) == b1 && ((s2 & 0b0000_0011) << 6) | (s3
        & 0b0011_1111) == b2 && (b1 == 0 ==> (s1 & 0b0000_1111) << 4 == 0) && (b2 == 0 ==> (s2
        & 0b0000_0011) << 6 == 0)) by (bit_vector)
        requires
            s0 == b0 / 4,
            s1 == (b0 % 4) * 16 + b1 / 16,
            s2 == (b1 % 16) * 4 + b2 / 64,
            s3 == b2 % 64,
    ;
}

/// One block survives encoding and decoding but for its zero bytes, and its
/// text meets what decoding asks for.
pub proof fn lemma_chunk_round_trip<T: Alphabet>(alphabet: &T, chunk: Seq<u8>)
    requires
        faithful(alphabet),
        1 <= chunk.len() <= 3,
    ensures
        chunk_decodable(alphabet, chunk_chars(alphabet, sextets(chunk))),
        indices(alphabet, chunk_chars(alphabet, sextets(chunk))) == sextets(chunk),
        decoded_chunk(alphabet, chunk_chars(alphabet, sextets(chunk))) == without_zeros(chunk),
{
    let groups = sextets(chunk);
    let text = chunk_chars(alphabet, groups);
    let pick = |character: char|
        if character == alphabet.padding_char() {
            None
        } else {
            alphabet.index_for_char(character)
        };
    lemma_stitched_sextets(chunk);
    // The first characters give the groups back, the others are padding.
    assert(forall|i: int|
        0 <= i < 4 ==> #[trigger] pick(text[i]) == (if i < groups.len() {
            Some(groups[i])
        } else {
            None
        }));
    text.lemma_filter_map_take_succ(pick, 0);
    text.lemma_filter_map_take_succ(pick, 1);
    text.lemma_filter_map_take_succ(pick, 2);
    text.lemma_filter_map_take_succ(pick, 3);
    if chunk.len() < 3 {
        chunk.lemma_filter_push(0u8, |byte: u8| byte > 0);
    }
}

/// Decoding inverts encoding, but for zero bytes: the text of any bytes,
/// written with an alphabet that loses nothing, is accepted by the decoder
/// and decodes to those bytes without the zero bytes among them.
pub proof fn lemma_decode_inverts_encode<T: Alphabet>(alphabet: &T, data: Seq<u8>)
    requires
        faithful(alphabet),
    ensures
        encoded(alphabet, data).len() % 4 == 0,
        decodable(alphabet, encoded(alphabet, data)),
        decoded(alphabet, encoded(alphabet, data)) == without_zeros(data),
    decreases data.len(),
{
    let text = encoded(alphabet, data);
    lemma_encoded_len(alphabet, data);
    if data.len() == 0 {
        assert(without_zeros(data) =~= Seq::<u8>::empty()) by {
            reveal(Seq::filter);
        }
    } else if data.len() <= 3 {
        lemma_chunk_round_trip(alphabet, data);
        assert(text.take(4) =~= text);
        assert(decoded(alphabet, text.skip(4)) =~= Seq::<u8>::empty());
    } else {
        let head = data.take(3);
        let rest = data.skip(3);
        let head_text = chunk_chars(alphabet, sextets(head));
        let rest_text = encoded(alphabet, rest);
        lemma_chunk_round_trip(alphabet, head);
        lemma_decode_inverts_encode(alphabet, rest);
        lemma_encoded_len(alphabet, rest);
        assert(text.take(4) =~= head_text);
        assert(text.skip(4) =~= rest_text);
        assert(data =~= head + rest);
        Seq::filter_distributes_over_add(head, rest, |byte: u8| byte > 0);
        assert forall|k: int| 0 <= k < text.len() / 4 implies chunk_decodable(
            alphabet,
            #[trigger] text.subrange(4 * k, 4 * k + 4),
        ) by {
            if k > 0 {
                assert(text.subrange(4 * k, 4 * k + 4) =~= rest_text.subrange(
                    4 * (k - 1),
                    4 * (k - 1) + 4,
                ));
            }
        }
    }
}

/// A text written by `encode` is accepted by `decode` and gives back the
/// bytes it was written from, but for the zero bytes among them.
pub proof fn lemma_classic_round_trip(data: Seq<u8>)
    ensures
        encoded(&Classic, data).len() % 4 == 0,
        decodable(&Classic, encoded(&Classic, data)),
        decoded(&Classic, encoded(&Classic, data)) == without_zeros(data),
{
    lemma_classic_is_faithful();
    lemma_decode_inverts_encode(&Classic, data);
}

} // verus!
