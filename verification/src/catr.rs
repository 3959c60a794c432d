//! Numbering the lines of a text.

use vstd::prelude::*;
use crate::decimal::{decimal, numeral};
use crate::lines::lines;
use crate::source::{names_or_stdin, texts, InputSource, Printed, Source, SourceError};
use crate::tally::split_lines;

verus! {

/// Which inputs to show, and which of their lines to number.
#[derive(Debug)]
pub struct Config {
    /// The inputs, in order; never empty.
    pub files: Vec<String>,
    /// Number every line.
    pub number_lines: bool,
    /// Number the lines that are not empty, and only those.
    pub number_nonblank_lines: bool,
}

/// Settles what to show: the inputs as named, or the standard input where
/// none is named, and the two choices as given.
pub fn get_args(files: Vec<String>, number: bool, number_nonblank: bool) -> (config: Config)
    ensures
        names_or_stdin(files@, config.files@),
        config.number_lines == number,
        config.number_nonblank_lines == number_nonblank,
{
    Config {
        files: InputSource::or_stdin(files),
        number_lines: number,
        number_nonblank_lines: number_nonblank,
    }
}

/// The width to which a line's number is filled up.
pub const NUMBER_WIDTH: usize = 6;

/// `text` behind as many spaces as bring it to `width` characters; `text`
/// itself where it is that long already.
pub open spec fn padded(text: Seq<char>, width: nat) -> Seq<char> {
    if text.len() >= width {
        text
    } else {
        Seq::new((width - text.len()) as nat, |i: int| ' ') + text
    }
}

/// What stands before a numbered line: its number, filled up on the left,
/// and a tab.
pub open spec fn number_prefix(number: nat) -> Seq<char> {
    padded(numeral(number), NUMBER_WIDTH as nat).push('\t')
}

impl Config {
    /// An empty line is passed over: it gets no number and uses none up.
    pub open spec fn passes_over(&self, line: Seq<char>) -> bool {
        self.number_nonblank_lines && line.len() == 0
    }

    /// The line gets a number.
    pub open spec fn numbers(&self, line: Seq<char>) -> bool {
        (self.number_lines || self.number_nonblank_lines) && !self.passes_over(line)
    }

    /// The line as it is shown when `number` is the next number to give.
    pub open spec fn shown(&self, number: nat, line: Seq<char>) -> Seq<char> {
        if self.numbers(line) {
            number_prefix(number) + line
        } else {
            line
        }
    }

    /// The next number to give after the line.
    pub open spec fn next_number(&self, number: nat, line: Seq<char>) -> nat {
        if self.passes_over(line) {
            number
        } else {
            number + 1
        }
    }

    /// The next number to give when the first `i` of `lines` were shown.
    /// Numbers start at one.
    pub open spec fn number_after(&self, lines: Seq<Seq<char>>, i: nat) -> nat
        decreases i,
    {
        if i == 0 {
            1
        } else {
            self.next_number(self.number_after(lines, (i - 1) as nat), lines[i - 1])
        }
    }

    /// Shows the lines of one input, each without its terminator: every
    /// line as it is written when the lines before it were shown.
    pub fn number_lines(&self, lines: &Vec<String>) -> (out: Vec<String>)
        ensures
            out.len() == lines.len(),
            forall|i: int|
                0 <= i < lines.len() ==> (#[trigger] out[i])@ == self.shown(
                    self.number_after(texts(lines@), i as nat),
                    lines[i]@,
                ),
    {
        let mut out: Vec<String> = Vec::new();
        let mut number: usize = 1;
        let mut i: usize = 0;
        while i < lines.len()
            invariant
                i <= lines.len(),
                out.len() == i,
                i < lines.len() ==> number == self.number_after(texts(lines@), i as nat),
                number <= i + 1,
                forall|j: int|
                    0 <= j < i ==> (#[trigger] out[j])@ == self.shown(
                        self.number_after(texts(lines@), j as nat),
                        lines[j]@,
                    ),
            decreases lines.len() - i,
        {
            let line = lines[i].as_str();
            out.push(self.show_line(number, line));
            i = i + 1;
            if i < lines.len() && !self.is_passed_over(line) {
                number = number + 1;
            }
        }
        out
    }

    /// Tells whether the line is passed over.
    pub fn is_passed_over(&self, line: &str) -> (b: bool)
        ensures
            b == self.passes_over(line@),
    {
        self.number_nonblank_lines && line.unicode_len() == 0
    }

    /// Shows one line, without its terminator, when `number` is the next
    /// number to give.
    pub fn show_line(&self, number: usize, line: &str) -> (text: String)
        ensures
            text@ == self.shown(number as nat, line@),
    {
        if !self.is_passed_over(line) && (self.number_lines || self.number_nonblank_lines) {
            let mut text = number_prefix_text(number);
            text.append(line);
            text
        } else {
            line.to_owned()
        }
    }

    /// Shows one line, without its terminator: returns the line as it is
    /// written and the number for the line after it.
    pub fn number_line(&self, number: usize, line: &str) -> (r: (String, usize))
        requires
            number < usize::MAX,
        ensures
            r.0@ == self.shown(number as nat, line@),
            r.1 == self.next_number(number as nat, line@),
    {
        let text = self.show_line(number, line);
        if self.is_passed_over(line) {
            (text, number)
        } else {
            (text, number + 1)
        }
    }
}

/// The line without what ends it: a line feed, or a carriage return and
/// a line feed.
pub open spec fn without_terminator(line: Seq<char>) -> Seq<char> {
    if line.len() > 0 && line.last() == '\n' {
        let body = line.drop_last();
        if body.len() > 0 && body.last() == '\r' {
            body.drop_last()
        } else {
            body
        }
    } else {
        line
    }
}

/// The lines of `text`, each without what ends it.
pub open spec fn bodies(text: Seq<char>) -> Seq<Seq<char>> {
    split_lines(text).map_values(|line: Seq<char>| without_terminator(line))
}

/// Takes from a line what ends it.
pub fn strip_terminator(line: &str) -> (body: &str)
    ensures
        body@ == without_terminator(line@),
{
    let len: usize = line.unicode_len();
    if len > 0 && line.get_char(len - 1) == '\n' {
        if len > 1 && line.get_char(len - 2) == '\r' {
            let body = line.substring_char(0, len - 2);
            assert(body@ =~= line@.drop_last().drop_last());
            body
        } else {
            let body = line.substring_char(0, len - 1);
            assert(body@ =~= line@.drop_last());
            body
        }
    } else {
        line
    }
}

impl Config {
    /// The first `n` of the lines `bodies` as they are written, each with a
    /// line feed behind it.
    pub open spec fn shown_lines(&self, bodies: Seq<Seq<char>>, n: nat) -> Seq<char>
        decreases n,
    {
        if n == 0 {
            Seq::empty()
        } else {
            self.shown_lines(bodies, (n - 1) as nat) + self.shown(
                self.number_after(bodies, (n - 1) as nat),
                bodies[n - 1],
            ).push('\n')
        }
    }

    /// The text as it is written: each of its lines, numbered or not, and a
    /// line feed behind each.
    pub open spec fn shown_text(&self, text: Seq<char>) -> Seq<char> {
        self.shown_lines(bodies(text), bodies(text).len())
    }

    /// Writes the text of one input.
    pub fn show_text(&self, text: &str) -> (out: String)
        ensures
            out@ == self.shown_text(text@),
    {
        let whole = lines(text);
        let mut stripped: Vec<String> = Vec::new();
        let mut i: usize = 0;
        while i < whole.len()
            invariant
                i <= whole.len(),
                texts(whole@) == split_lines(text@),
                stripped.len() == i,
                forall|j: int| 0 <= j < i ==> (#[trigger] stripped[j])@ == bodies(text@)[j],
            decreases whole.len() - i,
        {
            assert(texts(whole@)[i as int] == whole[i as int]@);
            stripped.push(strip_terminator(whole[i].as_str()).to_owned());
            i = i + 1;
        }
        assert(texts(whole@).len() == whole.len());
        assert(texts(stripped@) =~= bodies(text@));
        let numbered = self.number_lines(&stripped);
        let mut out = String::new();
        let mut k: usize = 0;
        while k < numbered.len()
            invariant
                k <= numbered.len(),
                numbered.len() == stripped.len(),
                texts(stripped@) == bodies(text@),
                forall|j: int|
                    0 <= j < stripped.len() ==> (#[trigger] numbered[j])@ == self.shown(
                        self.number_after(texts(stripped@), j as nat),
                        stripped[j]@,
                    ),
                out@ == self.shown_lines(bodies(text@), k as nat),
            decreases numbered.len() - k,
        {
            proof {
                reveal_strlit("\n");
                assert(texts(stripped@)[k as int] == stripped[k as int]@);
            }
            let ghost before = out@;
            out.append(numbered[k].as_str());
            out.append("\n");
            assert(out@ =~= before + numbered[k as int]@.push('\n'));
            k = k + 1;
        }
        assert(texts(stripped@).len() == stripped.len());
        out
    }
}

/// What is reported of an input that has no text: that it could not be
/// opened, or why it could not be read.
pub open spec fn failure_report(source: Source, line: Seq<char>) -> Seq<char> {
    match source.content {
        Err(SourceError::Open { name, cause }) => open_failure_line(
            SourceError::Open { name, cause },
        ),
        _ => line,
    }
}

/// What is written for the inputs `sources`: for each input in order its
/// text as it is shown, on the standard output, or the report of its
/// failure and a line feed, on the error channel.
pub open spec fn printed_by(config: Config, sources: Seq<Source>) -> (Seq<char>, Seq<char>)
    decreases sources.len(),
{
    if sources.len() == 0 {
        (Seq::empty(), Seq::empty())
    } else {
        let before = printed_by(config, sources.drop_last());
        let last = sources.last();
        match last.text() {
            Ok(text) => (before.0 + config.shown_text(text), before.1),
            Err(line) => (before.0, before.1 + failure_report(last, line).push('\n')),
        }
    }
}

/// Shows each input, its lines numbered as `config` asks for, starting
/// at one in every input. An input that failed is reported and leaves the
/// others as they are.
pub fn run(config: &Config, sources: &Vec<Source>) -> (printed: Printed)
    ensures
        printed@ == printed_by(*config, sources@),
{
    let mut out = String::new();
    let mut err = String::new();
    let mut i: usize = 0;
    assert(sources@.take(0) =~= Seq::<Source>::empty());
    while i < sources.len()
        invariant
            i <= sources.len(),
            (out@, err@) == printed_by(*config, sources@.take(i as int)),
        decreases sources.len() - i,
    {
        proof {
            reveal_strlit("\n");
            assert(sources@.take(i + 1).drop_last() =~= sources@.take(i as int));
            assert(sources@.take(i + 1).last() == sources@[i as int]);
        }
        let source = &sources[i];
        let ghost before = (out@, err@);
        match source.read_text() {
            Ok(text) => {
                let shown = config.show_text(text);
                out.append(shown.as_str());
                assert(out@ =~= before.0 + shown@);
            },
            Err(line) => {
                let report = match &source.content {
                    Err(failure) => match failure {
                        SourceError::Open { .. } => open_failure_text(failure),
                        SourceError::Read { .. } => line,
                    },
                    Ok(_) => line,
                };
                err.append(report.as_str());
                err.append("\n");
                assert(err@ =~= before.1 + report@.push('\n'));
            },
        }
        i = i + 1;
    }
    assert(sources@.take(i as int) =~= sources@);
    Printed { out, err }
}

/// What is reported of an input that could not be opened.
pub open spec fn open_failure_line(failure: SourceError) -> Seq<char> {
    seq!['F', 'a', 'i', 'l', 'e', 'd', ' ', 't', 'o', ' ', 'o', 'p', 'e', 'n', '!', ' ']
        + failure.line()
}

/// Writes the report of an input that could not be opened, without its
/// line feed.
pub fn open_failure_text(failure: &SourceError) -> (text: String)
    ensures
        text@ == open_failure_line(*failure),
{
    proof {
        reveal_strlit("Failed to open! ");
    }
    let mut text = "Failed to open! ".to_owned();
    let report = failure.message();
    text.append(report.as_str());
    assert(text@ =~= open_failure_line(*failure));
    text
}

/// Writes what stands before a numbered line.
pub fn number_prefix_text(number: usize) -> (text: String)
    ensures
        text@ == number_prefix(number as nat),
{
    proof {
        reveal_strlit(" ");
        reveal_strlit("\t");
    }
    let digits = decimal(number);
    let len: usize = digits.as_str().unicode_len();
    let mut text = String::new();
    let mut width: usize = len;
    while width < NUMBER_WIDTH
        invariant
            len == digits@.len(),
            len <= width,
            len < NUMBER_WIDTH ==> width <= NUMBER_WIDTH,
            len >= NUMBER_WIDTH ==> width == len,
            text@ == Seq::new((width - len) as nat, |i: int| ' '),
        decreases NUMBER_WIDTH - width,
    {
        proof {
            reveal_strlit(" ");
        }
        text.append(" ");
        width = width + 1;
        assert(text@ =~= Seq::new((width - len) as nat, |i: int| ' '));
    }
    let ghost fill = text@;
    text.append(digits.as_str());
    text.append("\t");
    assert(fill + digits@ =~= padded(numeral(number as nat), NUMBER_WIDTH as nat));
    assert(text@ =~= number_prefix(number as nat));
    text
}

} // verus!
