//! What the counts of a text are, and how the counts of two texts relate to
//! the counts of the text made of both.
//!
//! A text is modelled as its sequence of characters. A *line* is a maximal
//! run of characters up to and including a line feed, or the non-empty run
//! that follows the last line feed. A *word* is a maximal run of characters
//! that are not white space.

use vstd::prelude::*;
use vstd::utf8::*;

verus! {

/// The characters that separate words: those that Unicode marks as
/// `White_Space`.
pub open spec fn white_space(c: char) -> bool {
    let u = c as u32;
    ||| 0x09 <= u <= 0x0D
    ||| u == 0x20
    ||| u == 0x85
    ||| u == 0xA0
    ||| u == 0x1680
    ||| 0x2000 <= u <= 0x200A
    ||| u == 0x2028
    ||| u == 0x2029
    ||| u == 0x202F
    ||| u == 0x205F
    ||| u == 0x3000
}

/// Number of line feeds in `s`.
pub open spec fn newline_count(s: Seq<char>) -> nat
    decreases s.len(),
{
    if s.len() == 0 {
        0
    } else {
        newline_count(s.drop_last()) + if s.last() == '\n' {
            1nat
        } else {
            0nat
        }
    }
}

/// The text is not empty and its last character is no line feed: its last
/// line has no terminator.
pub open spec fn ends_unterminated(s: Seq<char>) -> bool {
    s.len() > 0 && s.last() != '\n'
}

/// Number of lines of `s`: one for each line feed, and one more for an
/// unterminated last line.
pub open spec fn line_count(s: Seq<char>) -> nat {
    newline_count(s) + if ends_unterminated(s) {
        1nat
    } else {
        0nat
    }
}

/// A word begins at position `i` of `s`.
pub open spec fn starts_word(s: Seq<char>, i: int) -> bool {
    &&& 0 <= i < s.len()
    &&& !white_space(s[i])
    &&& (i == 0 || white_space(s[i - 1]))
}

/// Number of words of `s`: the number of positions at which a word begins.
pub open spec fn word_count(s: Seq<char>) -> nat
    decreases s.len(),
{
    if s.len() == 0 {
        0
    } else {
        word_count(s.drop_last()) + if starts_word(s, s.len() - 1) {
            1nat
        } else {
            0nat
        }
    }
}

/// Number of bytes that `s` takes in UTF-8.
pub open spec fn utf8_len(s: Seq<char>) -> nat {
    encode_utf8(s).len()
}

/// The four counts of a text, as mathematical integers.
pub struct Tally {
    pub lines: nat,
    pub words: nat,
    pub bytes: nat,
    pub chars: nat,
}

impl Tally {
    /// The counts after one more line was read: one line more, and the
    /// words, bytes and characters of `line` more. Reading nothing changes
    /// nothing.
    pub open spec fn with_line(self, line: Seq<char>) -> Tally {
        if line.len() == 0 {
            self
        } else {
            Tally {
                lines: self.lines + 1,
                words: self.words + word_count(line),
                bytes: self.bytes + utf8_len(line),
                chars: self.chars + line.len(),
            }
        }
    }

    /// Each count can be held in a `usize`.
    pub open spec fn fits(self) -> bool {
        &&& self.lines <= usize::MAX
        &&& self.words <= usize::MAX
        &&& self.bytes <= usize::MAX
        &&& self.chars <= usize::MAX
    }
}

/// The counts of the text `s`.
pub open spec fn tally(s: Seq<char>) -> Tally {
    Tally { lines: line_count(s), words: word_count(s), bytes: utf8_len(s), chars: s.len() }
}

/// Every character takes at least one byte.
pub proof fn lemma_chars_le_bytes(s: Seq<char>)
    ensures
        s.len() <= utf8_len(s),
    decreases s.len(),
{
    if s.len() > 0 {
        lemma_chars_le_bytes(s.drop_first());
    }
}

/// The last word of `a` and the first word of `b` become one word when the
/// two texts are joined.
pub open spec fn words_join(a: Seq<char>, b: Seq<char>) -> bool {
    a.len() > 0 && b.len() > 0 && !white_space(a.last()) && !white_space(b[0])
}

/// The last line of `a` and the first line of `b` become one line when the
/// two texts are joined.
pub open spec fn lines_join(a: Seq<char>, b: Seq<char>) -> bool {
    ends_unterminated(a) && b.len() > 0
}

/// The lines of `s` in order, each with its line feed, if it has one.
pub open spec fn split_lines(s: Seq<char>) -> Seq<Seq<char>>
    decreases s.len(),
{
    if s.len() == 0 {
        Seq::empty()
    } else {
        let before = split_lines(s.drop_last());
        if ends_unterminated(s.drop_last()) {
            before.drop_last().push(before.last().push(s.last()))
        } else {
            before.push(seq![s.last()])
        }
    }
}

/// `line` is one line: it is not empty, and holds no line feed but,
/// possibly, as its last character.
pub open spec fn is_line(line: Seq<char>) -> bool {
    &&& line.len() > 0
    &&& forall|k: int| 0 <= k < line.len() - 1 ==> line[k] != '\n'
}

/// `parts` cuts `s` into its lines: joined they give `s`, each is one line,
/// and each but the last ends in a line feed.
pub open spec fn cuts_into_lines(s: Seq<char>, parts: Seq<Seq<char>>) -> bool {
    &&& parts.flatten() == s
    &&& forall|j: int| 0 <= j < parts.len() ==> is_line(#[trigger] parts[j])
    &&& forall|j: int| 0 <= j < parts.len() - 1 ==> (#[trigger] parts[j]).last() == '\n'
}

/// A text has as many line feeds as its two halves together.
pub proof fn lemma_newline_count_concat(a: Seq<char>, b: Seq<char>)
    ensures
        newline_count(a + b) == newline_count(a) + newline_count(b),
    decreases b.len(),
{
    if b.len() == 0 {
        assert(a + b =~= a);
    } else {
        assert((a + b).drop_last() =~= a + b.drop_last());
        lemma_newline_count_concat(a, b.drop_last());
    }
}

/// Joining two texts keeps their words, but for the two that meet where the
/// texts meet: they count once.
pub proof fn lemma_word_count_concat(a: Seq<char>, b: Seq<char>)
    ensures
        word_count(a + b) + (if words_join(a, b) { 1nat } else { 0nat }) == word_count(a)
            + word_count(b),
    decreases b.len(),
{
    if b.len() == 0 {
        assert(a + b =~= a);
    } else if b.len() == 1 {
        assert((a + b).drop_last() =~= a);
        assert(word_count(b.drop_last()) == 0);
    } else {
        assert((a + b).drop_last() =~= a + b.drop_last());
        lemma_word_count_concat(a, b.drop_last());
        assert(starts_word(a + b, (a + b).len() - 1) == starts_word(b, b.len() - 1));
    }
}

/// The encoding of a text is the encoding of its first half followed by that
/// of its second half.
pub proof fn lemma_encode_concat(a: Seq<char>, b: Seq<char>)
    ensures
        encode_utf8(a + b) == encode_utf8(a) + encode_utf8(b),
    decreases a.len(),
{
    if a.len() == 0 {
        assert(a + b =~= b);
        assert(encode_utf8(a) + encode_utf8(b) =~= encode_utf8(b));
    } else {
        assert((a + b).drop_first() =~= a.drop_first() + b);
        lemma_encode_concat(a.drop_first(), b);
        assert(encode_utf8(a + b) =~= encode_utf8(a) + encode_utf8(b));
    }
}

/// Number of bytes that the character `c` takes in UTF-8.
pub open spec fn char_width(c: char) -> nat {
    let u = c as u32;
    if u < 0x80 {
        1
    } else if u < 0x800 {
        2
    } else if u < 0x10000 {
        3
    } else {
        4
    }
}

/// A text takes the bytes of its characters: one more character adds the
/// one to four bytes of its own encoding.
pub proof fn lemma_utf8_len_push(s: Seq<char>, c: char)
    ensures
        utf8_len(s.push(c)) == utf8_len(s) + char_width(c),
{
    broadcast use vstd::utf8::char_is_scalar;

    let one = seq![c];
    assert(s.push(c) =~= s + one);
    lemma_encode_concat(s, one);
    assert(one.drop_first() =~= Seq::<char>::empty());
    assert(encode_utf8(one.drop_first()) =~= Seq::<u8>::empty());
    assert(encode_utf8(one) =~= encode_scalar(c as u32));
    assert(is_scalar(c as u32));
}

/// A text whose last character is no white space has a word.
pub proof fn lemma_word_at_end(s: Seq<char>)
    requires
        s.len() > 0,
        !white_space(s.last()),
    ensures
        word_count(s) >= 1,
    decreases s.len(),
{
    if !starts_word(s, s.len() - 1) {
        lemma_word_at_end(s.drop_last());
    }
}

/// A text whose first character is no white space has a word.
pub proof fn lemma_word_at_start(s: Seq<char>)
    requires
        s.len() > 0,
        !white_space(s[0]),
    ensures
        word_count(s) >= 1,
    decreases s.len(),
{
    if s.len() > 1 {
        lemma_word_at_start(s.drop_last());
    }
}

/// The counts of a joined text, exactly: bytes, characters and line feeds
/// add up; so do words and lines, less the one word and the one line that
/// the join may merge.
pub proof fn lemma_tally_concat(a: Seq<char>, b: Seq<char>)
    ensures
        tally(a + b).bytes == tally(a).bytes + tally(b).bytes,
        tally(a + b).chars == tally(a).chars + tally(b).chars,
        tally(a + b).words + (if words_join(a, b) { 1nat } else { 0nat }) == tally(a).words
            + tally(b).words,
        tally(a + b).lines + (if lines_join(a, b) { 1nat } else { 0nat }) == tally(a).lines
            + tally(b).lines,
{
    lemma_newline_count_concat(a, b);
    lemma_word_count_concat(a, b);
    lemma_encode_concat(a, b);
    if b.len() == 0 {
        assert(a + b =~= a);
    } else {
        assert((a + b).last() == b.last());
    }
}

/// Where the first text is empty or ends in a line feed, the counts of the
/// joined text are the sums of the counts of the two: a text may be counted
/// line by line.
pub proof fn lemma_tally_concat_after_line(a: Seq<char>, b: Seq<char>)
    requires
        !ends_unterminated(a),
    ensures
        tally(a + b).lines == tally(a).lines + tally(b).lines,
        tally(a + b).words == tally(a).words + tally(b).words,
        tally(a + b).bytes == tally(a).bytes + tally(b).bytes,
        tally(a + b).chars == tally(a).chars + tally(b).chars,
{
    lemma_tally_concat(a, b);
}

/// A joined text has at least the lines, words, bytes and characters of
/// either of its halves, and more bytes and characters than one half where
/// the other is not empty.
pub proof fn lemma_tally_monotone(a: Seq<char>, b: Seq<char>)
    ensures
        tally(a + b).lines >= tally(a).lines,
        tally(a + b).lines >= tally(b).lines,
        tally(a + b).words >= tally(a).words,
        tally(a + b).words >= tally(b).words,
        tally(a + b).bytes >= tally(a).bytes,
        tally(a + b).bytes >= tally(b).bytes,
        tally(a + b).chars >= tally(a).chars,
        tally(a + b).chars >= tally(b).chars,
        b.len() > 0 ==> tally(a + b).bytes > tally(a).bytes && tally(a + b).chars > tally(a).chars,
        a.len() > 0 ==> tally(a + b).bytes > tally(b).bytes && tally(a + b).chars > tally(b).chars,
{
    lemma_tally_concat(a, b);
    lemma_chars_le_bytes(a);
    lemma_chars_le_bytes(b);
    lemma_tally_bounds(a);
    lemma_tally_bounds(b);
    if words_join(a, b) {
        lemma_word_at_end(a);
        lemma_word_at_start(b);
    }
    if lines_join(a, b) {
        lemma_line_of_nonempty(b);
    }
}

/// A text that is not empty has a line.
pub proof fn lemma_line_of_nonempty(s: Seq<char>)
    requires
        s.len() > 0,
    ensures
        line_count(s) >= 1,
{
}

/// No more lines than characters, no more words than characters, no more
/// characters than bytes.
pub proof fn lemma_tally_bounds(s: Seq<char>)
    ensures
        tally(s).lines <= tally(s).chars,
        tally(s).words <= tally(s).chars,
        tally(s).chars <= tally(s).bytes,
        tally(s).lines <= tally(s).bytes,
        newline_count(s) <= s.len(),
        ends_unterminated(s) ==> newline_count(s) < s.len(),
    decreases s.len(),
{
    lemma_chars_le_bytes(s);
    if s.len() > 0 {
        lemma_tally_bounds(s.drop_last());
    }
}

/// A text without a line feed has none to count.
pub proof fn lemma_no_newline(s: Seq<char>)
    requires
        forall|k: int| 0 <= k < s.len() ==> s[k] != '\n',
    ensures
        newline_count(s) == 0,
    decreases s.len(),
{
    if s.len() > 0 {
        lemma_no_newline(s.drop_last());
    }
}

/// One line counts as one line.
pub proof fn lemma_one_line(line: Seq<char>)
    requires
        is_line(line),
    ensures
        line_count(line) == 1,
{
    lemma_no_newline(line.drop_last());
}

/// Counting line by line counts the text: behind a text that is empty or
/// ends in a line feed, one more line adds one line and its own words,
/// bytes and characters.
pub proof fn lemma_tally_with_line(text: Seq<char>, line: Seq<char>)
    requires
        !ends_unterminated(text),
        is_line(line),
    ensures
        tally(text + line) == tally(text).with_line(line),
{
    lemma_tally_concat(text, line);
    lemma_one_line(line);
}

/// The empty text has no line, no word, no byte and no character.
pub proof fn lemma_tally_empty()
    ensures
        tally(Seq::empty()) == (Tally { lines: 0, words: 0, bytes: 0, chars: 0 }),
{
}

/// Cutting a text at its line feeds gives as many pieces as the text has
/// lines, and these pieces are its lines.
pub proof fn lemma_split_lines(s: Seq<char>)
    ensures
        split_lines(s).len() == line_count(s),
        cuts_into_lines(s, split_lines(s)),
        ends_unterminated(s) ==> split_lines(s).len() > 0 && split_lines(s).last().last() != '\n',
        s.len() > 0 && !ends_unterminated(s) ==> split_lines(s).len() > 0 && split_lines(
            s,
        ).last().last() == '\n',
    decreases s.len(),
{
    broadcast use Seq::lemma_flatten_push;

    if s.len() == 0 {
        assert(split_lines(s).flatten() =~= s);
    } else {
        let init = s.drop_last();
        let before = split_lines(init);
        let parts = split_lines(s);
        lemma_split_lines(init);
        if ends_unterminated(init) {
            let open = before.last();
            let closed = open.push(s.last());
            assert(before =~= before.drop_last().push(open));
            assert(before.flatten() =~= before.drop_last().flatten() + open);
            assert(parts.flatten() =~= before.drop_last().flatten() + closed);
            assert(before.drop_last().flatten() + closed =~= (before.drop_last().flatten()
                + open).push(s.last()));
            assert(init.push(s.last()) =~= s);
            assert(parts.flatten() == s);
            assert(is_line(open));
            assert(is_line(closed));
            assert forall|j: int| 0 <= j < parts.len() implies is_line(#[trigger] parts[j]) by {
                if j < parts.len() - 1 {
                    assert(parts[j] == before[j]);
                }
            }
            assert forall|j: int| 0 <= j < parts.len() - 1 implies (#[trigger] parts[j]).last()
                == '\n' by {
                assert(parts[j] == before[j]);
            }
        } else {
            let fresh = seq![s.last()];
            assert(parts.flatten() =~= before.flatten() + fresh);
            assert(init + fresh =~= s);
            assert(is_line(fresh));
            assert forall|j: int| 0 <= j < parts.len() implies is_line(#[trigger] parts[j]) by {
                if j < parts.len() - 1 {
                    assert(parts[j] == before[j]);
                }
            }
            assert forall|j: int| 0 <= j < parts.len() - 1 implies (#[trigger] parts[j]).last()
                == '\n' by {
                assert(parts[j] == before[j]);
            }
        }
    }
}

/// The first `j` of the lines of a text, put together, hold `j` lines and
/// end with a line's end unless they are all the lines.
pub proof fn lemma_lines_put_together(text: Seq<char>, parts: Seq<Seq<char>>, j: int)
    requires
        cuts_into_lines(text, parts),
        0 <= j <= parts.len(),
    ensures
        line_count(parts.take(j).flatten()) == j,
        j < parts.len() ==> !ends_unterminated(parts.take(j).flatten()),
    decreases j,
{
    broadcast use Seq::lemma_flatten_push;

    if j == 0 {
        assert(parts.take(0) =~= Seq::<Seq<char>>::empty());
        assert(parts.take(0).flatten() =~= Seq::<char>::empty());
    } else {
        lemma_lines_put_together(text, parts, j - 1);
        let before = parts.take(j - 1);
        let line = parts[j - 1];
        assert(parts.take(j) =~= before.push(line));
        assert(parts.take(j).flatten() =~= before.flatten() + line);
        assert(is_line(line));
        lemma_tally_with_line(before.flatten(), line);
        assert(tally(before.flatten() + line).lines == j);
        if j < parts.len() {
            assert(line.last() == '\n');
            assert((before.flatten() + line).last() == line.last());
        }
    }
}

/// The counts that reading the first `n` of the lines `parts` one by one
/// adds up to, starting from nothing.
pub open spec fn tally_line_by_line(parts: Seq<Seq<char>>, n: nat) -> Tally
    decreases n,
{
    if n == 0 {
        tally(Seq::empty())
    } else {
        tally_line_by_line(parts, (n - 1) as nat).with_line(parts[n - 1])
    }
}

/// Reading the first `j` lines of a text one by one counts what these
/// lines hold when put together.
pub proof fn lemma_tally_of_leading_lines(text: Seq<char>, parts: Seq<Seq<char>>, j: int)
    requires
        cuts_into_lines(text, parts),
        0 <= j <= parts.len(),
    ensures
        tally_line_by_line(parts, j as nat) == tally(parts.take(j).flatten()),
    decreases j,
{
    broadcast use Seq::lemma_flatten_push;

    if j == 0 {
        assert(parts.take(0) =~= Seq::<Seq<char>>::empty());
        assert(parts.take(0).flatten() =~= Seq::<char>::empty());
    } else {
        lemma_tally_of_leading_lines(text, parts, j - 1);
        lemma_lines_put_together(text, parts, j - 1);
        let before = parts.take(j - 1);
        let line = parts[j - 1];
        assert(parts.take(j) =~= before.push(line));
        assert(parts.take(j).flatten() =~= before.flatten() + line);
        assert(is_line(line));
        lemma_tally_with_line(before.flatten(), line);
    }
}

/// Reading a text line by line, and adding up one line and the words,
/// bytes and characters of each, counts the text.
pub proof fn lemma_tally_line_by_line(text: Seq<char>)
    ensures
        tally_line_by_line(split_lines(text), split_lines(text).len()) == tally(text),
{
    lemma_split_lines(text);
    let parts = split_lines(text);
    lemma_tally_of_leading_lines(text, parts, parts.len() as int);
    assert(parts.take(parts.len() as int) =~= parts);
}

} // verus!
