//! Counting the lines, words, bytes and characters of a text.
//!
//! A text is modelled as its sequence of characters. A *line* is a maximal
//! run of characters up to and including a line feed, or the non-empty run
//! that follows the last line feed. A *word* is a maximal run of characters
//! that are not white space.

use vstd::prelude::*;
use vstd::utf8::*;
use vstd::string::StringSliceAdditionalSpecFns;
use crate::decimal::{numeral, push_decimal};
use crate::encoding::decode;
use crate::source::{
    failure_text, names_or_stdin, not_utf8, not_utf8_text, InputSource, Printed, Source,
};
use crate::tally::{
    lemma_chars_le_bytes, lemma_tally_bounds, newline_count, tally, white_space, word_count, Tally,
};

verus! {

broadcast use vstd::utf8::group_utf8_lib;

/// Which inputs to count, and which counts to show.
#[derive(Debug)]
pub struct Config {
    /// The inputs, in order; never empty.
    pub files: Vec<String>,
    /// Show the number of lines.
    pub lines: bool,
    /// Show the number of words.
    pub words: bool,
    /// Show the number of bytes.
    pub bytes: bool,
    /// Show the number of characters.
    pub chars: bool,
}

/// Why a choice of counts is refused.
#[derive(Debug, Clone, Copy, PartialEq, Eq, Structural)]
pub enum ConfigError {
    /// Bytes and characters were both asked for: only one of them is shown.
    BytesWithChars,
}

/// The counts that are shown: those asked for, or lines, words and bytes
/// where none is asked for. In order: lines, words, bytes, characters.
pub open spec fn selection(lines: bool, words: bool, bytes: bool, chars: bool) -> (
    bool,
    bool,
    bool,
    bool,
) {
    if !lines && !words && !bytes && !chars {
        (true, true, true, false)
    } else {
        (lines, words, bytes, chars)
    }
}

impl Config {
    /// There is an input, some count is shown, and bytes and characters are
    /// not both shown.
    pub open spec fn wf(&self) -> bool {
        &&& self.files@.len() > 0
        &&& self.lines || self.words || self.bytes || self.chars
        &&& !(self.bytes && self.chars)
    }
}

/// Settles what to count and show: the inputs as named, or the standard
/// input where none is named, and the counts of `selection`. Asking for
/// bytes and characters together is refused.
pub fn get_args(files: Vec<String>, lines: bool, words: bool, bytes: bool, chars: bool) -> (r:
    Result<Config, ConfigError>)
    ensures
        r is Err <==> bytes && chars,
        r matches Err(e) ==> e == ConfigError::BytesWithChars,
        r matches Ok(config) ==> config.wf() && names_or_stdin(files@, config.files@) && (
            config.lines,
            config.words,
            config.bytes,
            config.chars,
        ) == selection(lines, words, bytes, chars),
{
    if bytes && chars {
        return Err(ConfigError::BytesWithChars);
    }
    let files = InputSource::or_stdin(files);
    if !lines && !words && !bytes && !chars {
        Ok(Config { files, lines: true, words: true, bytes: true, chars: false })
    } else {
        Ok(Config { files, lines, words, bytes, chars })
    }
}

/// The counts of one input.
#[derive(Debug, Clone, Copy, PartialEq, Eq, Structural)]
pub struct FileInfo {
    pub num_lines: usize,
    pub num_words: usize,
    pub num_bytes: usize,
    pub num_chars: usize,
}

impl View for FileInfo {
    type V = Tally;

    open spec fn view(&self) -> Tally {
        Tally {
            lines: self.num_lines as nat,
            words: self.num_words as nat,
            bytes: self.num_bytes as nat,
            chars: self.num_chars as nat,
        }
    }
}

impl FileInfo {
    /// The counts of an input of which nothing was read yet.
    pub fn new() -> (info: FileInfo)
        ensures
            info@ == tally(Seq::empty()),
    {
        FileInfo { num_lines: 0, num_words: 0, num_bytes: 0, num_chars: 0 }
    }

    /// The counts after `line` was read as the next line: one line more, and
    /// the words, bytes and characters of `line`. An empty `line`, which is
    /// what the end of the input reads as, changes nothing. `None` where a
    /// count would no longer fit.
    pub fn add_line(&self, line: &str) -> (r: Option<FileInfo>)
        ensures
            r is Some <==> self@.with_line(line@).fits(),
            r matches Some(info) ==> info@ == self@.with_line(line@),
    {
        let read = count_str(line);
        if read.num_chars == 0 {
            return Some(*self);
        }
        let num_lines = self.num_lines.checked_add(1);
        let num_words = self.num_words.checked_add(read.num_words);
        let num_bytes = self.num_bytes.checked_add(read.num_bytes);
        let num_chars = self.num_chars.checked_add(read.num_chars);
        match (num_lines, num_words, num_bytes, num_chars) {
            (Some(num_lines), Some(num_words), Some(num_bytes), Some(num_chars)) => Some(
                FileInfo { num_lines, num_words, num_bytes, num_chars },
            ),
            _ => None,
        }
    }
}

/// Why an input could not be counted.
#[derive(Debug, Clone, Copy, PartialEq, Eq, Structural)]
pub enum CountError {
    /// The input is not valid UTF-8.
    InvalidEncoding,
}

impl CountError {
    /// The error in words.
    pub fn message(&self) -> (text: String)
        ensures
            text@ == not_utf8(),
    {
        not_utf8_text()
    }
}

impl ConfigError {
    /// The error in words.
    pub fn message(&self) -> (text: String)
        ensures
            text@ == "the byte count and the character count cannot be shown together"@,
    {
        "the byte count and the character count cannot be shown together".to_owned()
    }
}

/// Tells whether `c` separates words.
pub fn is_whitespace(c: char) -> (b: bool)
    ensures
        b == white_space(c),
{
    let u: u32 = c as u32;
    (0x09 <= u && u <= 0x0D) || u == 0x20 || u == 0x85 || u == 0xA0 || u == 0x1680 || (0x2000 <= u
        && u <= 0x200A) || u == 0x2028 || u == 0x2029 || u == 0x202F || u == 0x205F || u == 0x3000
}

/// Counts the lines, words, bytes and characters of `text` in one pass.
pub fn count_str(text: &str) -> (info: FileInfo)
    ensures
        info@ == tally(text@),
        info.num_lines <= info.num_chars,
        info.num_words <= info.num_chars,
        info.num_chars <= info.num_bytes,
{
    let num_bytes: usize = text.as_bytes().len();
    let mut num_chars: usize = 0;
    let mut newlines: usize = 0;
    let mut num_words: usize = 0;
    let mut in_word: bool = false;
    let mut open_line: bool = false;
    proof {
        lemma_chars_le_bytes(text@);
        lemma_tally_bounds(text@);
    }
    for c in it: text.chars()
        invariant
            it.seq() == text@,
            text@.len() <= usize::MAX,
            num_chars == it.index(),
            newlines == newline_count(text@.take(it.index() as int)),
            num_words == word_count(text@.take(it.index() as int)),
            in_word <==> it.index() > 0 && !white_space(text@[it.index() - 1]),
            open_line <==> it.index() > 0 && text@[it.index() - 1] != '\n',
            newlines + (if open_line { 1nat } else { 0nat }) <= it.index(),
            num_words <= it.index(),
    {
        proof {
            let i = it.index() as int;
            assert(text@.take(i + 1).drop_last() =~= text@.take(i));
            assert(text@.take(i + 1).last() == c);
        }
        let space = is_whitespace(c);
        if !space && !in_word {
            num_words = num_words + 1;
        }
        if c == '\n' {
            newlines = newlines + 1;
        }
        in_word = !space;
        open_line = c != '\n';
        num_chars = num_chars + 1;
    }
    assert(text@.take(text@.len() as int) =~= text@);
    let num_lines: usize = if open_line {
        newlines + 1
    } else {
        newlines
    };
    FileInfo { num_lines, num_words, num_bytes, num_chars }
}

/// Counts the lines, words, bytes and characters of an input, which must be
/// valid UTF-8: any other input is refused as a whole.
pub fn count(input: &[u8]) -> (r: Result<FileInfo, CountError>)
    ensures
        r is Ok <==> valid_utf8(input@),
        r matches Ok(info) ==> info@ == tally(decode_utf8(input@)),
        r matches Ok(info) ==> info.num_bytes == input.len(),
        r matches Ok(info) ==> info.num_lines <= info.num_chars && info.num_words
            <= info.num_chars && info.num_chars <= info.num_bytes,
        r matches Err(e) ==> e == CountError::InvalidEncoding,
{
    match decode(input) {
        Some(text) => Ok(count_str(text)),
        None => Err(CountError::InvalidEncoding),
    }
}

/// The size that is shown in the third column: characters where they are
/// asked for, bytes otherwise.
pub open spec fn size_shown(counts: Tally, chars: bool) -> nat {
    if chars {
        counts.chars
    } else {
        counts.bytes
    }
}

/// The line that reports the counts of the input `name`, without its line
/// feed: lines, a tab, words, a tab, the size, a space, the name.
pub open spec fn report_text(counts: Tally, chars: bool, name: Seq<char>) -> Seq<char> {
    numeral(counts.lines).push('\t') + numeral(counts.words).push('\t') + numeral(
        size_shown(counts, chars),
    ).push(' ') + name
}

/// Writes the line that reports `info` for the input `file_name`.
pub fn report(config: &Config, info: &FileInfo, file_name: &str) -> (text: String)
    ensures
        text@ == report_text(info@, config.chars, file_name@),
{
    proof {
        reveal_strlit("\t");
        reveal_strlit(" ");
    }
    let size: usize = if config.chars {
        info.num_chars
    } else {
        info.num_bytes
    };
    let mut text = String::new();
    push_decimal(&mut text, info.num_lines);
    text.append("\t");
    push_decimal(&mut text, info.num_words);
    text.append("\t");
    push_decimal(&mut text, size);
    text.append(" ");
    text.append(file_name);
    assert(text@ =~= report_text(info@, config.chars, file_name@));
    text
}

/// What is written for one input that was read: the report of its counts,
/// or, where it could not be read or is no text, the report of that.
pub open spec fn source_line(chars: bool, source: Source) -> Result<Seq<char>, Seq<char>> {
    match source.text() {
        Ok(text) => Ok(report_text(tally(text), chars, source.name@)),
        Err(line) => Err(line),
    }
}

/// What is written for the inputs `sources`: one line for each, in their
/// order; the counts on the standard output, the failures on the error
/// channel.
pub open spec fn printed_by(chars: bool, sources: Seq<Source>) -> (Seq<char>, Seq<char>)
    decreases sources.len(),
{
    if sources.len() == 0 {
        (Seq::empty(), Seq::empty())
    } else {
        let before = printed_by(chars, sources.drop_last());
        match source_line(chars, sources.last()) {
            Ok(line) => (before.0 + line.push('\n'), before.1),
            Err(line) => (before.0, before.1 + line.push('\n')),
        }
    }
}

/// Counts each input by itself and writes one line for each. An input that
/// failed is reported and leaves the others as they are; no total is
/// written.
pub fn run(config: &Config, sources: &Vec<Source>) -> (printed: Printed)
    ensures
        printed@ == printed_by(config.chars, sources@),
{
    let mut out = String::new();
    let mut err = String::new();
    let mut i: usize = 0;
    assert(sources@.take(0) =~= Seq::<Source>::empty());
    while i < sources.len()
        invariant
            i <= sources.len(),
            (out@, err@) == printed_by(config.chars, sources@.take(i as int)),
        decreases sources.len() - i,
    {
        proof {
            reveal_strlit("\n");
            assert(sources@.take(i + 1).drop_last() =~= sources@.take(i as int));
            assert(sources@.take(i + 1).last() == sources@[i as int]);
        }
        let source = &sources[i];
        let name = source.name.as_str();
        let ghost before = (out@, err@);
        let line = match &source.content {
            Ok(bytes) => match count(bytes.as_slice()) {
                Ok(info) => Ok(report(config, &info, name)),
                Err(refused) => Err(failure_text(name, refused.message().as_str())),
            },
            Err(failure) => Err(failure.message()),
        };
        match line {
            Ok(text) => {
                out.append(text.as_str());
                out.append("\n");
                assert(out@ =~= before.0 + text@.push('\n'));
            },
            Err(text) => {
                err.append(text.as_str());
                err.append("\n");
                assert(err@ =~= before.1 + text@.push('\n'));
            },
        }
        i = i + 1;
    }
    assert(sources@.take(i as int) =~= sources@);
    Printed { out, err }
}

/// The counts are a function of the text: two results for one text are the
/// same result.
pub proof fn lemma_count_repeatable(text: Seq<char>, first: FileInfo, second: FileInfo)
    requires
        first@ == tally(text),
        second@ == tally(text),
    ensures
        first == second,
{
}

} // verus!
