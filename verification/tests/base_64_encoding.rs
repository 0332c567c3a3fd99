use chip8_core::base_64_encoding::{
    can_decode, can_decode_using_alphabet, chunk_is_decodable, decode, decode_using_alphabet,
    encode, encode_chunk, encode_using_alphabet, original, split,
    stitch, Alphabet, Classic, DecodeError,
};

const TABLE: &[u8; 64] = b"ABCDEFGHIJKLMNOPQRSTUVWXYZabcdefghijklmnopqrstuvwxyz0123456789+/";

/// Base64 written out the plain way, to hold the library against.
fn reference_encode(data: &[u8]) -> String {
    let mut text = String::new();
    for block in data.chunks(3) {
        let b = [block[0], *block.get(1).unwrap_or(&0), *block.get(2).unwrap_or(&0)];
        let n = (b[0] as u32) << 16 | (b[1] as u32) << 8 | b[2] as u32;
        for k in 0..4 {
            if k <= block.len() {
                text.push(TABLE[(n >> (18 - 6 * k) & 63) as usize] as char);
            } else {
                text.push('=');
            }
        }
    }
    text
}

#[test]
fn encode_known_texts() {
    assert_eq!(encode(b""), "");
    assert_eq!(encode(b"A"), "QQ==");
    assert_eq!(encode(b"AB"), "QUI=");
    assert_eq!(encode(b"ABC"), "QUJD");
    assert_eq!(encode(b"ABCD"), "QUJDRA==");
    assert_eq!(encode(b"Hello, World!"), "SGVsbG8sIFdvcmxkIQ==");
    assert_eq!(encode(&[0xFB, 0xFF]), "+/8=");
    assert_eq!(encode(&[0, 0, 0]), "AAAA");
    assert_eq!(encode(&[0]), "AA==");
    assert_eq!(encode(&[255, 255, 255]), "////");
}

#[test]
fn encode_agrees_with_the_plain_way() {
    let mut data: Vec<u8> = Vec::new();
    for length in 0..200usize {
        assert_eq!(encode(&data), reference_encode(&data));
        data.push((length * 89 + 17) as u8);
    }
    let all: Vec<u8> = (0..=255u8).collect();
    assert_eq!(encode(&all), reference_encode(&all));
}

#[test]
fn encoded_length_is_four_per_block() {
    for length in 0..50usize {
        let data = vec![1u8; length];
        assert_eq!(encode(&data).chars().count(), 4 * ((length + 2) / 3));
    }
}

#[test]
fn classic_characters() {
    let classic = Classic;
    for index in 0..64u8 {
        assert_eq!(classic.get_char_for_index(index), Some(TABLE[index as usize] as char));
        assert_eq!(classic.get_index_for_char(TABLE[index as usize] as char), Some(index));
    }
    assert_eq!(classic.get_char_for_index(0), Some('A'));
    assert_eq!(classic.get_char_for_index(25), Some('Z'));
    assert_eq!(classic.get_char_for_index(26), Some('a'));
    assert_eq!(classic.get_char_for_index(51), Some('z'));
    assert_eq!(classic.get_char_for_index(52), Some('0'));
    assert_eq!(classic.get_char_for_index(61), Some('9'));
    assert_eq!(classic.get_char_for_index(62), Some('+'));
    assert_eq!(classic.get_char_for_index(63), Some('/'));
    for index in 64..=255u8 {
        assert_eq!(classic.get_char_for_index(index), None);
    }
    assert_eq!(classic.get_padding_char(), '=');
}

#[test]
fn classic_indices_of_other_characters() {
    let classic = Classic;
    for code in 0..128u8 {
        let character = code as char;
        let expected = TABLE.iter().position(|&c| c == code).map(|i| i as u8);
        assert_eq!(classic.get_index_for_char(character), expected);
    }
    for character in ['=', ' ', '-', '_', '\n', '@', '[', '`', '{', ':', '\u{FF}', '\u{80}'] {
        assert_eq!(classic.get_index_for_char(character), None);
    }
}

#[test]
fn classic_index_looks_at_the_low_byte_only() {
    let classic = Classic;
    assert_eq!(classic.get_index_for_char('\u{141}'), Some(0));
    assert_eq!(classic.get_index_for_char('\u{17A}'), Some(51));
    assert_eq!(classic.get_index_for_char('\u{1F62B}'), Some(62));
    assert_eq!(classic.get_index_for_char('\u{13D}'), None);
    assert_eq!(classic.get_index_for_char('\u{100}'), None);
}

#[test]
fn split_cuts_into_six_bit_groups() {
    assert_eq!(split(&[65]), vec![16, 16]);
    assert_eq!(split(&[65, 66]), vec![16, 20, 8]);
    assert_eq!(split(&[65, 66, 67]), vec![16, 20, 9, 3]);
    assert_eq!(split(&[0xFF]), vec![63, 48]);
    assert_eq!(split(&[0xFF, 0xFF]), vec![63, 63, 60]);
    assert_eq!(split(&[0xFF, 0xFF, 0xFF]), vec![63, 63, 63, 63]);
    assert_eq!(split(&[0, 0, 0]), vec![0, 0, 0, 0]);
    assert_eq!(split(&[0b1010_1010, 0b0101_0101, 0b1100_0011]), vec![
        0b101010, 0b100101, 0b010111, 0b000011
    ]);
}

#[test]
fn encode_chunk_pads_what_is_open() {
    assert_eq!(encode_chunk(&Classic, vec![16, 16]), vec!['Q', 'Q', '=', '=']);
    assert_eq!(encode_chunk(&Classic, vec![16, 20, 8]), vec!['Q', 'U', 'I', '=']);
    assert_eq!(encode_chunk(&Classic, vec![16, 20, 9, 3]), vec!['Q', 'U', 'J', 'D']);
    assert_eq!(encode_chunk(&Classic, vec![]), vec!['=', '=', '=', '=']);
    assert_eq!(encode_chunk(&Classic, vec![0]), vec!['A', '=', '=', '=']);
}

#[test]
fn encode_chunk_pads_what_has_no_character() {
    assert_eq!(encode_chunk(&Classic, vec![64, 1, 200, 2]), vec!['=', 'B', '=', 'C']);
}

#[test]
fn original_looks_up_what_is_no_padding() {
    assert_eq!(original(&Classic, &['Q', 'Q', '=', '=']), vec![16, 16]);
    assert_eq!(original(&Classic, &['Q', 'U', 'J', 'D']), vec![16, 20, 9, 3]);
    assert_eq!(original(&Classic, &['=', 'Q', '=', 'U']), vec![16, 20]);
    assert_eq!(original(&Classic, &['=', '=', '=', '=']), Vec::<u8>::new());
    assert_eq!(original(&Classic, &[]), Vec::<u8>::new());
    assert_eq!(original(&Classic, &['+', '/']), vec![62, 63]);
}

#[test]
fn stitch_joins_and_drops_zero_bytes() {
    assert_eq!(stitch(vec![16, 16]), vec![65]);
    assert_eq!(stitch(vec![16, 20, 8]), vec![65, 66]);
    assert_eq!(stitch(vec![16, 20, 9, 3]), vec![65, 66, 67]);
    assert_eq!(stitch(vec![0, 0, 0, 0]), Vec::<u8>::new());
    assert_eq!(stitch(vec![16, 16, 0, 0]), vec![65]);
    assert_eq!(stitch(vec![0, 4, 16, 0]), vec![68]);
    assert_eq!(stitch(vec![63, 63, 63, 63]), vec![255, 255, 255]);
}

#[test]
fn stitch_merges_bits_above_the_low_six() {
    // (64 & 63) << 2 | 255 >> 4 = 15; (255 & 15) << 4 = 240
    assert_eq!(stitch(vec![64, 255]), vec![15, 240]);
    // (0 & 3) << 6 | 0xC1 & 63 = 1
    assert_eq!(stitch(vec![16, 16, 0, 0xC1]), vec![65, 1]);
    // 16 >> 4 = 1 falls on the low bits of the first byte
    assert_eq!(stitch(vec![1, 0xF0]), vec![4 | 15]);
}

#[test]
fn decode_known_texts() {
    assert_eq!(decode(&String::from("")), Ok(vec![]));
    assert_eq!(decode(&String::from("QQ==")), Ok(vec![65]));
    assert_eq!(decode(&String::from("QUI=")), Ok(vec![65, 66]));
    assert_eq!(decode(&String::from("QUJD")), Ok(vec![65, 66, 67]));
    assert_eq!(decode(&String::from("QUJDRA==")), Ok(b"ABCD".to_vec()));
    assert_eq!(decode(&String::from("SGVsbG8sIFdvcmxkIQ==")), Ok(b"Hello, World!".to_vec()));
    assert_eq!(decode(&String::from("+/8=")), Ok(vec![0xFB, 0xFF]));
}

#[test]
fn decode_refuses_a_length_that_is_no_multiple_of_four() {
    for text in ["Q", "QQ", "QQ=", "QUJDR", "QUJDRA=", "=", "\u{141}\u{141}\u{141}"] {
        assert_eq!(decode(&String::from(text)), Err(DecodeError::InvalidInput), "text {}", text);
    }
}

#[test]
fn decode_counts_characters_not_bytes() {
    // Four characters, seven bytes of UTF-8: accepted, read by their low bytes.
    let text = String::from("\u{141}\u{141}\u{141}A");
    assert_eq!(text.len(), 7);
    assert_eq!(decode(&text), Ok(vec![]));
    let text = String::from("\u{151}\u{155}\u{14A}D");
    assert_eq!(decode(&text), Ok(vec![65, 66, 67]));
    // Three characters of which one takes two bytes: four bytes, refused.
    let text = String::from("Q\u{141}=");
    assert_eq!(text.len(), 4);
    assert_eq!(decode(&text), Err(DecodeError::InvalidInput));
}

#[test]
fn decode_drops_zero_bytes() {
    assert_eq!(decode(&String::from("AAAA")), Ok(vec![]));
    assert_eq!(decode(&String::from("AEEA")), Ok(vec![65]));
    assert_eq!(decode(&encode(&[0, 65, 0, 66, 0, 0, 67])), Ok(vec![65, 66, 67]));
    assert_eq!(decode(&encode(&[0])), Ok(vec![]));
    assert_eq!(decode(&encode(&[1, 0])), Ok(vec![1]));
}

#[test]
fn decode_takes_padding_anywhere_in_a_group() {
    assert_eq!(decode(&String::from("=QQ=")), Ok(vec![65]));
    assert_eq!(decode(&String::from("Q=U=")), Ok(vec![65, 64]));
    assert_eq!(decode(&String::from("QQ==QUJD")), Ok(vec![65, 65, 66, 67]));
}

#[test]
fn decode_inverts_encode_without_zero_bytes() {
    let mut data: Vec<u8> = Vec::new();
    for length in 0..300usize {
        assert_eq!(decode(&encode(&data)), Ok(data.clone()));
        data.push((length * 37 % 255 + 1) as u8);
    }
    let all: Vec<u8> = (1..=255u8).collect();
    assert_eq!(decode(&encode(&all)), Ok(all));
}

#[test]
fn decode_of_encode_is_the_data_without_zeros() {
    let mut data: Vec<u8> = Vec::new();
    for length in 0..300usize {
        let kept: Vec<u8> = data.iter().copied().filter(|&byte| byte != 0).collect();
        assert_eq!(decode(&encode(&data)), Ok(kept));
        data.push((length * 7 % 5 * 51) as u8);
    }
}

/// The alphabet of RFC 4648 for file names and URLs, padded with a dot.
struct UrlSafe;

impl Alphabet for UrlSafe {
    fn char_for_index(&self, index: u8) -> Option<char> {
        self.get_char_for_index(index)
    }

    fn index_for_char(&self, character: char) -> Option<u8> {
        self.get_index_for_char(character)
    }

    fn padding_char(&self) -> char {
        self.get_padding_char()
    }

    fn get_char_for_index(&self, index: u8) -> Option<char> {
        match index {
            62 => Some('-'),
            63 => Some('_'),
            _ => Classic.get_char_for_index(index),
        }
    }

    fn get_index_for_char(&self, character: char) -> Option<u8> {
        match character {
            '-' => Some(62),
            '_' => Some(63),
            '+' | '/' => None,
            _ => Classic.get_index_for_char(character),
        }
    }

    fn get_padding_char(&self) -> char {
        '.'
    }
}

#[test]
fn another_alphabet() {
    assert_eq!(encode_using_alphabet(&UrlSafe, &[0xFB, 0xFF]), "-_8.");
    assert_eq!(encode_using_alphabet(&UrlSafe, b"A"), "QQ..");
    assert_eq!(encode_using_alphabet(&Classic, b"A"), "QQ==");
    assert_eq!(decode_using_alphabet(UrlSafe, &String::from("-_8.")), Ok(vec![0xFB, 0xFF]));
    assert_eq!(decode_using_alphabet(UrlSafe, &String::from("QQ..")), Ok(vec![65]));
    assert_eq!(
        decode_using_alphabet(UrlSafe, &String::from("QQ.")),
        Err(DecodeError::InvalidInput)
    );
    assert_eq!(decode_using_alphabet(Classic, &String::from("QUJD")), Ok(vec![65, 66, 67]));
}

#[test]
fn what_decode_can_be_called_on() {
    for text in ["", "QQ==", "QUI=", "QUJD", "=QQ=", "Q=U=", "==QQ", "QUJDRA==", "+/+/"] {
        assert!(can_decode(&String::from(text)), "text {}", text);
    }
    // Refused for its length, whatever it holds.
    for text in ["Q", "QQ=", "!!!", "=", "QUJD?"] {
        assert!(can_decode(&String::from(text)), "text {}", text);
    }
    // A character that is neither padding nor in the alphabet.
    for text in ["QQ!=", "QUJ ", "QUJDQU-D", "Q_JD", "QUJ\n", "\u{13D}QQ="] {
        assert!(!can_decode(&String::from(text)), "text {}", text);
    }
    // Fewer than two characters beside the padding.
    for text in ["====", "Q===", "=Q==", "QUJD===A"] {
        assert!(!can_decode(&String::from(text)), "text {}", text);
    }
}

#[test]
fn what_can_be_decoded_depends_on_the_alphabet() {
    assert!(can_decode_using_alphabet(&UrlSafe, &String::from("-_8.")));
    assert!(!can_decode_using_alphabet(&Classic, &String::from("-_8.")));
    assert!(can_decode_using_alphabet(&Classic, &String::from("+/8=")));
    assert!(!can_decode_using_alphabet(&UrlSafe, &String::from("+/8=")));
    assert!(!can_decode_using_alphabet(&UrlSafe, &String::from("QQ==")));
}

#[test]
fn a_group_can_be_decoded_with_two_known_characters() {
    assert!(chunk_is_decodable(&Classic, &['Q', 'Q', '=', '=']));
    assert!(chunk_is_decodable(&Classic, &['Q', 'Q']));
    assert!(!chunk_is_decodable(&Classic, &['Q', '=', '=', '=']));
    assert!(!chunk_is_decodable(&Classic, &[]));
    assert!(!chunk_is_decodable(&Classic, &['Q', 'Q', '?', '=']));
}

#[test]
fn every_encoded_text_can_be_decoded() {
    let mut data: Vec<u8> = Vec::new();
    for length in 0..100usize {
        assert!(can_decode(&encode(&data)));
        data.push((length * 113) as u8);
    }
}
