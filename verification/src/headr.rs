//! The leading lines of a text.

use vstd::prelude::*;
use crate::decimal::{parse_usize, parsed};
use crate::source::{names_or_stdin, InputSource, Printed, Source};
use crate::tally::{
    ends_unterminated, lemma_lines_put_together, lemma_split_lines, lemma_tally_concat,
    line_count, newline_count, split_lines,
};

verus! {

/// What to show of which inputs.
#[derive(Debug)]
pub struct Config {
    /// The inputs, in order; never empty.
    pub files: Vec<String>,
    /// How many lines to show of each input.
    pub lines: usize,
    /// How many bytes were asked for, if any.
    pub bytes: Option<usize>,
}

/// Settles what to show: the inputs as named, or the standard input where
/// none is named, and the two limits as given.
pub fn get_args(files: Vec<String>, lines: usize, bytes: Option<usize>) -> (config: Config)
    ensures
        names_or_stdin(files@, config.files@),
        config.lines == lines,
        config.bytes == bytes,
{
    Config { files: InputSource::or_stdin(files), lines, bytes }
}

/// The positive number that `s` writes, if it writes one that a `usize`
/// holds.
pub open spec fn positive_int(s: Seq<char>) -> Option<nat> {
    match parsed(s, usize::MAX as nat) {
        Some(n) => if n > 0 {
            Some(n)
        } else {
            None
        },
        None => None,
    }
}

/// Reads a count that must be positive. A text that writes no number, or
/// writes zero, is handed back as the error.
pub fn parse_positive_int(val: &str) -> (r: Result<usize, String>)
    ensures
        r is Ok <==> positive_int(val@) is Some,
        r matches Ok(n) ==> positive_int(val@) == Some(n as nat),
        r matches Err(e) ==> e@ == val@,
{
    match parse_usize(val) {
        Some(n) => {
            if n > 0 {
                Ok(n)
            } else {
                Err(val.to_owned())
            }
        },
        None => Err(val.to_owned()),
    }
}

/// The smaller of two numbers.
pub open spec fn least(a: nat, b: nat) -> nat {
    if a <= b {
        a
    } else {
        b
    }
}

/// `shown` is the first `lines` lines of `text`: a prefix of it that holds
/// `lines` lines, or all the lines where `text` has fewer, and that ends with
/// a line's end.
pub open spec fn is_head(text: Seq<char>, lines: nat, shown: Seq<char>) -> bool {
    &&& shown.len() <= text.len()
    &&& shown == text.take(shown.len() as int)
    &&& line_count(shown) == least(lines, line_count(text))
    &&& shown.len() < text.len() ==> !ends_unterminated(shown)
}

/// The first `lines` lines of `text` put together, or all of them where
/// `text` has fewer.
pub open spec fn leading_lines(text: Seq<char>, lines: nat) -> Seq<char> {
    let parts = split_lines(text);
    parts.take(least(lines, parts.len()) as int).flatten()
}

/// The first `lines` lines of `text`, each with its line feed.
pub fn head<'a>(text: &'a str, lines: usize) -> (shown: &'a str)
    ensures
        is_head(text@, lines as nat, shown@),
        shown@ == leading_lines(text@, lines as nat),
{
    let total: usize = text.unicode_len();
    let mut taken: usize = 0;
    let mut newlines: usize = 0;
    let mut done: bool = lines == 0;
    assert(text@.take(0) =~= Seq::<char>::empty());
    for c in it: text.chars()
        invariant
            it.seq() == text@,
            total == text@.len(),
            taken <= it.index(),
            newlines == newline_count(text@.take(taken as int)),
            newlines <= taken,
            !done ==> taken == it.index() && newlines < lines,
            done ==> newlines == lines && !ends_unterminated(text@.take(taken as int)),
    {
        if !done {
            proof {
                let i = taken as int;
                assert(text@.take(i + 1).drop_last() =~= text@.take(i));
                assert(text@.take(i + 1).last() == c);
            }
            taken = taken + 1;
            if c == '\n' {
                newlines = newlines + 1;
                if newlines == lines {
                    done = true;
                }
            }
        }
    }
    let shown = text.substring_char(0, taken);
    proof {
        let h = text@.take(taken as int);
        let rest = text@.skip(taken as int);
        assert(shown@ =~= h);
        assert(h + rest =~= text@);
        assert(h.take(h.len() as int) =~= h);
        assert(text@.take(h.len() as int) =~= h);
        lemma_tally_concat(h, rest);
        if !done {
            assert(h =~= text@);
        }
        lemma_head_is_leading_lines(text@, lines as nat);
        lemma_head_unique(text@, lines as nat, shown@, leading_lines(text@, lines as nat));
    }
    shown
}

/// What is written before the lines of an input: an empty line unless the
/// input is the first one shown, then the input's name between arrows where
/// several inputs were named.
pub open spec fn header_text(name: Seq<char>, first: bool, many: bool) -> Seq<char> {
    (if first {
        Seq::<char>::empty()
    } else {
        seq!['\n']
    }) + (if many {
        seq!['=', '=', '>', ' '] + name + seq![' ', '<', '=', '=', '\n']
    } else {
        Seq::<char>::empty()
    })
}

/// Writes what comes before the lines of the input `file_name`.
pub fn header(file_name: &str, first: bool, many: bool) -> (text: String)
    ensures
        text@ == header_text(file_name@, first, many),
{
    proof {
        reveal_strlit("\n");
        reveal_strlit("==> ");
        reveal_strlit(" <==\n");
    }
    let mut text = String::new();
    if !first {
        text.append("\n");
    }
    if many {
        text.append("==> ");
        text.append(file_name);
        text.append(" <==\n");
    }
    assert(text@ =~= header_text(file_name@, first, many));
    text
}

/// What is written for the inputs `sources`, and whether no input was
/// shown yet: for each input in order its header and its first `lines`
/// lines, on the standard output, or the report of its failure and a line
/// feed, on the error channel. `many` says that every input gets its name
/// written above it.
pub open spec fn printed_by(lines: nat, many: bool, sources: Seq<Source>) -> (
    Seq<char>,
    Seq<char>,
    bool,
)
    decreases sources.len(),
{
    if sources.len() == 0 {
        (Seq::empty(), Seq::empty(), true)
    } else {
        let before = printed_by(lines, many, sources.drop_last());
        let last = sources.last();
        match last.text() {
            Ok(text) => (
                before.0 + header_text(last.name@, before.2, many) + leading_lines(text, lines),
                before.1,
                false,
            ),
            Err(line) => (before.0, before.1 + line.push('\n'), before.2),
        }
    }
}

/// Shows the first lines of each input, as many as `config` asks for. The
/// inputs are named above their lines where there are several of them. An
/// input that failed is reported and leaves the others as they are.
pub fn run(config: &Config, sources: &Vec<Source>) -> (printed: Printed)
    ensures
        printed.out@ == printed_by(config.lines as nat, sources.len() > 1, sources@).0,
        printed.err@ == printed_by(config.lines as nat, sources.len() > 1, sources@).1,
{
    let many = sources.len() > 1;
    let mut out = String::new();
    let mut err = String::new();
    let mut first: bool = true;
    let mut i: usize = 0;
    assert(sources@.take(0) =~= Seq::<Source>::empty());
    while i < sources.len()
        invariant
            i <= sources.len(),
            (out@, err@, first) == printed_by(config.lines as nat, many, sources@.take(i as int)),
        decreases sources.len() - i,
    {
        proof {
            reveal_strlit("\n");
            assert(sources@.take(i + 1).drop_last() =~= sources@.take(i as int));
            assert(sources@.take(i + 1).last() == sources@[i as int]);
        }
        let source = &sources[i];
        let ghost before = (out@, err@);
        match source.read_text() {
            Ok(text) => {
                let above = header(source.name.as_str(), first, many);
                let shown = head(text, config.lines);
                out.append(above.as_str());
                out.append(shown);
                first = false;
                assert(out@ =~= before.0 + above@ + shown@);
            },
            Err(line) => {
                err.append(line.as_str());
                err.append("\n");
                assert(err@ =~= before.1 + line@.push('\n'));
            },
        }
        i = i + 1;
    }
    assert(sources@.take(i as int) =~= sources@);
    Printed { out, err }
}

/// The head of a text is its first lines put together.
pub proof fn lemma_head_is_leading_lines(text: Seq<char>, lines: nat)
    ensures
        is_head(text, lines, leading_lines(text, lines)),
{
    lemma_split_lines(text);
    let parts = split_lines(text);
    let k = least(lines, parts.len()) as int;
    let shown = parts.take(k).flatten();
    lemma_lines_put_together(text, parts, k);
    assert(parts =~= parts.take(k) + parts.skip(k));
    vstd::seq_lib::lemma_flatten_concat(parts.take(k), parts.skip(k));
    assert(text =~= shown + parts.skip(k).flatten());
    assert(shown =~= text.take(shown.len() as int));
    if k == parts.len() {
        assert(parts.take(k) =~= parts);
    }
}

/// A text has one head only.
pub proof fn lemma_head_unique(text: Seq<char>, lines: nat, a: Seq<char>, b: Seq<char>)
    requires
        is_head(text, lines, a),
        is_head(text, lines, b),
    ensures
        a == b,
{
    if a.len() < b.len() {
        lemma_longer_prefix_has_more_lines(text, a.len() as int, b.len() as int);
    } else if b.len() < a.len() {
        lemma_longer_prefix_has_more_lines(text, b.len() as int, a.len() as int);
    }
}

/// A prefix that ends with a line's end has fewer lines than any longer
/// prefix.
pub proof fn lemma_longer_prefix_has_more_lines(text: Seq<char>, i: int, j: int)
    requires
        0 <= i < j <= text.len(),
        !ends_unterminated(text.take(i)),
    ensures
        line_count(text.take(i)) < line_count(text.take(j)),
{
    let rest = text.subrange(i, j);
    assert(text.take(i) + rest =~= text.take(j));
    lemma_tally_concat(text.take(i), rest);
}

} // verus!
