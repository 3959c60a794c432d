//! Where an input comes from: the standard input or a named file.

use vstd::prelude::*;
use vstd::utf8::*;
use crate::encoding::decode;

verus! {

/// An input of a utility.
#[derive(Debug, PartialEq, Eq)]
pub enum InputSource {
    /// The standard input, written `-` on the command line.
    Stdin,
    /// The file of this name.
    File(String),
}

/// The name that stands for the standard input.
pub open spec fn stdin_name() -> Seq<char> {
    seq!['-']
}

/// The source that `name` stands for.
pub open spec fn source_of(name: Seq<char>) -> Option<Seq<char>> {
    if name == stdin_name() {
        None
    } else {
        Some(name)
    }
}

/// `named` is the list `given`, or the standard input alone where `given`
/// is empty.
pub open spec fn names_or_stdin(given: Seq<String>, named: Seq<String>) -> bool {
    if given.len() > 0 {
        named == given
    } else {
        named.len() == 1 && named[0]@ == stdin_name()
    }
}

/// The texts of a list of strings.
pub open spec fn texts(parts: Seq<String>) -> Seq<Seq<char>> {
    parts.map_values(|s: String| s@)
}

/// What is reported of an input that failed: its name, a colon and a
/// space, and the cause.
pub open spec fn failure_line(name: Seq<char>, cause: Seq<char>) -> Seq<char> {
    name + seq![':', ' '] + cause
}

/// Writes the report of a failed input, without its line feed.
pub fn failure_text(file_name: &str, cause: &str) -> (text: String)
    ensures
        text@ == failure_line(file_name@, cause@),
{
    proof {
        reveal_strlit(": ");
    }
    let mut text = file_name.to_owned();
    text.append(": ");
    text.append(cause);
    assert(text@ =~= failure_line(file_name@, cause@));
    text
}

/// What went wrong with one input. Neither kind ends the run: the inputs
/// that follow are still read.
#[derive(Debug, PartialEq, Eq)]
pub enum SourceError {
    /// The input could not be opened.
    Open { name: String, cause: String },
    /// The input was opened and could not be read to its end.
    Read { name: String, cause: String },
}

impl SourceError {
    /// What is reported of the failure: the input's name and the cause.
    pub open spec fn line(&self) -> Seq<char> {
        match self {
            SourceError::Open { name, cause } => failure_line(name@, cause@),
            SourceError::Read { name, cause } => failure_line(name@, cause@),
        }
    }

    /// Writes the report of the failure, without its line feed.
    pub fn message(&self) -> (text: String)
        ensures
            text@ == self.line(),
    {
        match self {
            SourceError::Open { name, cause } => failure_text(name.as_str(), cause.as_str()),
            SourceError::Read { name, cause } => failure_text(name.as_str(), cause.as_str()),
        }
    }
}

/// One input as it was read: its name, and its bytes or why there are
/// none.
#[derive(Debug, PartialEq, Eq)]
pub struct Source {
    pub name: String,
    pub content: Result<Vec<u8>, SourceError>,
}

/// What a run writes: the text for the standard output and the text for
/// the error channel.
#[derive(Debug, PartialEq, Eq)]
pub struct Printed {
    pub out: String,
    pub err: String,
}

impl View for Printed {
    type V = (Seq<char>, Seq<char>);

    open spec fn view(&self) -> (Seq<char>, Seq<char>) {
        (self.out@, self.err@)
    }
}

/// The cause that is reported of an input that is not valid UTF-8.
pub open spec fn not_utf8() -> Seq<char> {
    "stream did not contain valid UTF-8"@
}

/// Writes the cause that is reported of an input that is not valid UTF-8.
pub fn not_utf8_text() -> (text: String)
    ensures
        text@ == not_utf8(),
{
    "stream did not contain valid UTF-8".to_owned()
}

impl Source {
    /// The text of the input, or the report of why it has none: it could
    /// not be opened or read, or its bytes are not valid UTF-8.
    pub open spec fn text(&self) -> Result<Seq<char>, Seq<char>> {
        match self.content {
            Ok(bytes) => if valid_utf8(bytes@) {
                Ok(decode_utf8(bytes@))
            } else {
                Err(failure_line(self.name@, not_utf8()))
            },
            Err(failure) => Err(failure.line()),
        }
    }

    /// Reads the input's bytes as text, or writes the report of why it has
    /// none.
    pub fn read_text(&self) -> (r: Result<&str, String>)
        ensures
            r is Ok <==> self.text() is Ok,
            r matches Ok(text) ==> self.text() == Ok::<Seq<char>, Seq<char>>(text@),
            r matches Err(line) ==> self.text() == Err::<Seq<char>, Seq<char>>(line@),
    {
        match &self.content {
            Ok(bytes) => match decode(bytes.as_slice()) {
                Some(text) => Ok(text),
                None => {
                    let cause = not_utf8_text();
                    Err(failure_text(self.name.as_str(), cause.as_str()))
                },
            },
            Err(failure) => Err(failure.message()),
        }
    }
}

impl InputSource {
    /// The file's name, or `None` for the standard input.
    pub open spec fn path(&self) -> Option<Seq<char>> {
        match self {
            InputSource::Stdin => None,
            InputSource::File(name) => Some(name@),
        }
    }

    /// Tells the standard input from a named file: `-` is the standard
    /// input, every other name is a file of that name.
    pub fn resolve(file_name: &str) -> (source: InputSource)
        ensures
            source.path() == source_of(file_name@),
    {
        if file_name.unicode_len() == 1 && file_name.get_char(0) == '-' {
            assert(file_name@ =~= stdin_name());
            InputSource::Stdin
        } else {
            InputSource::File(file_name.to_owned())
        }
    }

    /// A list of sources is never empty: where no name is given, the
    /// standard input is read.
    pub fn or_stdin(files: Vec<String>) -> (named: Vec<String>)
        ensures
            names_or_stdin(files@, named@),
    {
        if files.len() == 0 {
            proof {
                reveal_strlit("-");
            }
            let name = "-".to_owned();
            assert(name@ =~= stdin_name());
            let mut named = files;
            named.push(name);
            named
        } else {
            files
        }
    }
}

} // verus!
