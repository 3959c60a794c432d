//! Joining words into one line.

use vstd::prelude::*;
use crate::source::texts;

verus! {

/// The texts of `parts` in order, one space between each two.
pub open spec fn joined(parts: Seq<Seq<char>>) -> Seq<char>
    decreases parts.len(),
{
    if parts.len() == 0 {
        Seq::empty()
    } else if parts.len() == 1 {
        parts[0]
    } else {
        joined(parts.drop_last()).push(' ') + parts.last()
    }
}

/// What is written for `parts`: the joined texts, and a line feed unless it
/// is left out.
pub open spec fn echoed(parts: Seq<Seq<char>>, omit_newline: bool) -> Seq<char> {
    if omit_newline {
        joined(parts)
    } else {
        joined(parts).push('\n')
    }
}

/// Joins `text` with single spaces and ends the line, unless
/// `omit_newline` is set.
pub fn echo(text: &Vec<String>, omit_newline: bool) -> (out: String)
    ensures
        out@ == echoed(texts(text@), omit_newline),
{
    proof {
        reveal_strlit(" ");
        reveal_strlit("\n");
    }
    let ghost parts = texts(text@);
    let mut out = String::new();
    let mut i: usize = 0;
    assert(parts.take(0) =~= Seq::<Seq<char>>::empty());
    while i < text.len()
        invariant
            i <= text.len(),
            parts == texts(text@),
            out@ == joined(parts.take(i as int)),
        decreases text.len() - i,
    {
        proof {
            reveal_strlit(" ");
        }
        if i > 0 {
            out.append(" ");
        }
        out.append(text[i].as_str());
        proof {
            let next = parts.take(i + 1);
            assert(next.drop_last() =~= parts.take(i as int));
            assert(next.last() == text@[i as int]@);
            assert(out@ =~= joined(next));
        }
        i = i + 1;
    }
    assert(parts.take(i as int) =~= parts);
    if !omit_newline {
        out.append("\n");
    }
    assert(out@ =~= echoed(parts, omit_newline));
    out
}

} // verus!
