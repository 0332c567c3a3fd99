//! A file held in memory: a name, its bytes, and whether it is open. Reading
//! and writing are refused while it is closed.
use vstd::prelude::*;
use vstd::string::StringExecFns;

verus! {

/// Whether a file is open.
#[derive(Debug, Clone, Copy, PartialEq, Eq, Structural)]
pub enum FileState {
    Open,
    Closed,
}

/// A named sequence of bytes with a state.
#[derive(Debug)]
pub struct File {
    pub name: String,
    pub data: Vec<u8>,
    pub state: FileState,
}

/// A file as mathematics sees it.
pub struct FileView {
    pub name: Seq<char>,
    pub data: Seq<u8>,
    pub state: FileState,
}

impl View for File {
    type V = FileView;

    open spec fn view(&self) -> FileView {
        FileView { name: self.name@, data: self.data@, state: self.state }
    }
}

impl Clone for File {
    /// A copy of the file: same name, same bytes, same state.
    fn clone(&self) -> (copy: File)
        ensures
            copy@ == self@,
    {
        File { name: self.name.clone(), data: self.data.clone(), state: self.state }
    }
}

impl FileState {
    /// The state's name in capitals.
    pub open spec fn label(self) -> Seq<char> {
        match self {
            FileState::Open => "OPEN"@,
            FileState::Closed => "CLOSED"@,
        }
    }

    /// Writes the state as `OPEN` or `CLOSED`.
    pub fn to_string(&self) -> (text: String)
        ensures
            text@ == self.label(),
    {
        match self {
            FileState::Open => String::from_str("OPEN"),
            FileState::Closed => String::from_str("CLOSED"),
        }
    }
}

/// What can be read from and written to.
pub trait Read {
    /// The bytes held.
    spec fn contents(&self) -> Seq<u8>;

    /// Whether reading and writing are allowed.
    spec fn is_open(&self) -> bool;

    /// Appends all bytes held to `save_to` and returns their number, or
    /// refuses with a message and leaves `save_to` as it was.
    fn read(&self, save_to: &mut Vec<u8>) -> (result: Result<usize, String>)
        ensures
            self.is_open() ==> result == Ok::<usize, String>(self.contents().len() as usize)
                && final(save_to)@ == old(save_to)@ + self.contents(),
            !self.is_open() ==> result is Err && final(save_to)@ == old(save_to)@,
    ;

    /// Replaces the bytes held by `data` and returns their number, or
    /// refuses with a message and keeps the bytes held.
    fn write(&mut self, data: Vec<u8>) -> (result: Result<usize, String>)
        ensures
            final(self).is_open() == old(self).is_open(),
            old(self).is_open() ==> result == Ok::<usize, String>(data@.len() as usize)
                && final(self).contents() == data@,
            !old(self).is_open() ==> result is Err
                && final(self).contents() == old(self).contents(),
    ;
}

impl Read for File {
    open spec fn contents(&self) -> Seq<u8> {
        self.data@
    }

    open spec fn is_open(&self) -> bool {
        self.state == FileState::Open
    }

    fn read(&self, save_to: &mut Vec<u8>) -> (result: Result<usize, String>)
        ensures
            result matches Err(message) ==> message@ == "File must be open for reading"@,
    {
        if self.state != FileState::Open {
            return Err(String::from_str("File must be open for reading"));
        }
        let mut tmp = self.data.clone();
        let read_length = tmp.len();
        save_to.append(&mut tmp);
        Ok(read_length)
    }

    fn write(&mut self, data: Vec<u8>) -> (result: Result<usize, String>)
        ensures
            result matches Err(message) ==> message@ == "File must be open for Writing"@,
            final(self).name == old(self).name,
            final(self).state == old(self).state,
    {
        if self.state != FileState::Open {
            return Err(String::from_str("File must be open for Writing"));
        }
        self.data = data;
        let length = self.data.len();
        Ok(length)
    }
}

impl File {
    /// A closed, empty file with the given name.
    pub fn new(name: &str) -> (file: File)
        ensures
            file@ == (FileView { name: name@, data: Seq::empty(), state: FileState::Closed }),
    {
        File { name: String::from_str(name), data: Vec::new(), state: FileState::Closed }
    }

    /// Opens the file and returns a copy of it as it then is.
    pub fn open(&mut self) -> (result: Result<File, String>)
        ensures
            final(self)@ == (FileView { state: FileState::Open, ..old(self)@ }),
            result is Ok,
            result->Ok_0@ == final(self)@,
    {
        self.state = FileState::Open;
        Ok(self.clone())
    }

    /// Closes the file and returns a copy of it as it then is.
    pub fn close(&mut self) -> (result: Result<File, String>)
        ensures
            final(self)@ == (FileView { state: FileState::Closed, ..old(self)@ }),
            result is Ok,
            result->Ok_0@ == final(self)@,
    {
        self.state = FileState::Closed;
        Ok(self.clone())
    }

    /// What the file is written as: its name and state, as in `<5.txt (OPEN)>`.
    pub open spec fn description(&self) -> Seq<char> {
        "<"@ + self.name@ + " ("@ + self.state.label() + ")>"@
    }

    /// Writes the file as its name and state between angle brackets.
    pub fn to_string(&self) -> (text: String)
        ensures
            text@ == self.description(),
    {
        let mut text = String::from_str("<");
        text.append(self.name.as_str());
        text.append(" (");
        let state = self.state.to_string();
        text.append(state.as_str());
        text.append(")>");
        text
    }
}

} // verus!
