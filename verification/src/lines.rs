//! Cutting a text into its lines.

use vstd::prelude::*;
use crate::source::texts;
use crate::tally::{ends_unterminated, lemma_split_lines, line_count, split_lines};

verus! {

/// `String::push` appends one character to the string. Not proved here:
/// that the string then holds what it held, followed by that character.
pub assume_specification[ String::push ](s: &mut String, ch: char)
    ensures
        final(s)@ == old(s)@.push(ch),
;

/// The lines of `text` in order, each with its line feed, if it has one.
/// Put together again they give `text`, and there are as many of them as
/// `text` has lines.
pub fn lines(text: &str) -> (out: Vec<String>)
    ensures
        texts(out@) == split_lines(text@),
        out.len() == line_count(text@),
{
    let mut out: Vec<String> = Vec::new();
    let mut line = String::new();
    let mut open: bool = false;
    assert(text@.take(0) =~= Seq::<char>::empty());
    assert(texts(out@) =~= split_lines(text@.take(0)));
    for c in it: text.chars()
        invariant
            it.seq() == text@,
            open <==> ends_unterminated(text@.take(it.index() as int)),
            open ==> split_lines(text@.take(it.index() as int)) == texts(out@).push(line@),
            !open ==> split_lines(text@.take(it.index() as int)) == texts(out@) && line@.len()
                == 0,
    {
        let ghost i = it.index() as int;
        let ghost before = texts(out@);
        let ghost held = line@;
        proof {
            assert(text@.take(i + 1).drop_last() =~= text@.take(i));
            assert(text@.take(i + 1).last() == c);
            if open {
                assert(before.push(held).drop_last() =~= before);
            } else {
                assert(held.push(c) =~= seq![c]);
            }
        }
        line.push(c);
        assert(split_lines(text@.take(i + 1)) == before.push(line@));
        if c == '\n' {
            out.push(line);
            assert(texts(out@) =~= before.push(held.push(c)));
            line = String::new();
            open = false;
        } else {
            open = true;
        }
    }
    assert(text@.take(text@.len() as int) =~= text@);
    if open {
        let ghost before = texts(out@);
        out.push(line);
        assert(texts(out@) =~= before.push(line@));
    }
    proof {
        lemma_split_lines(text@);
        assert(texts(out@).len() == out.len());
    }
    out
}

} // verus!
