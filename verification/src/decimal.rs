//! Writing and reading natural numbers in decimal.

use vstd::prelude::*;

verus! {

/// The character of the digit `d`.
pub open spec fn digit_char(d: nat) -> char
    recommends
        d < 10,
{
    if d == 0 {
        '0'
    } else if d == 1 {
        '1'
    } else if d == 2 {
        '2'
    } else if d == 3 {
        '3'
    } else if d == 4 {
        '4'
    } else if d == 5 {
        '5'
    } else if d == 6 {
        '6'
    } else if d == 7 {
        '7'
    } else if d == 8 {
        '8'
    } else {
        '9'
    }
}

/// `c` is one of the ten digits.
pub open spec fn is_digit(c: char) -> bool {
    '0' as u32 <= c as u32 <= '9' as u32
}

/// The value of the digit `c`.
pub open spec fn digit_value(c: char) -> nat
    recommends
        is_digit(c),
{
    (c as u32 - '0' as u32) as nat
}

/// The decimal numeral of `n`, without leading zeros.
pub open spec fn numeral(n: nat) -> Seq<char>
    decreases n,
{
    if n < 10 {
        seq![digit_char(n)]
    } else {
        numeral(n / 10).push(digit_char(n % 10))
    }
}

/// Every character of `s` is a digit.
pub open spec fn all_digits(s: Seq<char>) -> bool {
    forall|i: int| 0 <= i < s.len() ==> is_digit(#[trigger] s[i])
}

/// The number that the digits `s` write, the empty sequence writing zero.
pub open spec fn digits_value(s: Seq<char>) -> nat
    decreases s.len(),
{
    if s.len() == 0 {
        0
    } else {
        digits_value(s.drop_last()) * 10 + digit_value(s.last())
    }
}

/// A numeral is made of digits and writes its number.
pub proof fn lemma_numeral_value(n: nat)
    ensures
        numeral(n).len() > 0,
        all_digits(numeral(n)),
        digits_value(numeral(n)) == n,
    decreases n,
{
    if n < 10 {
        assert(numeral(n).drop_last() =~= Seq::<char>::empty());
        assert(digits_value(numeral(n).drop_last()) == 0);
    } else {
        lemma_numeral_value(n / 10);
        assert(numeral(n).drop_last() =~= numeral(n / 10));
    }
}

/// The digit `d` as text.
fn digit_text(d: usize) -> (text: &'static str)
    requires
        d < 10,
    ensures
        text@ == seq![digit_char(d as nat)],
{
    proof {
        reveal_strlit("0");
        reveal_strlit("1");
        reveal_strlit("2");
        reveal_strlit("3");
        reveal_strlit("4");
        reveal_strlit("5");
        reveal_strlit("6");
        reveal_strlit("7");
        reveal_strlit("8");
        reveal_strlit("9");
    }
    let text = if d == 0 {
        "0"
    } else if d == 1 {
        "1"
    } else if d == 2 {
        "2"
    } else if d == 3 {
        "3"
    } else if d == 4 {
        "4"
    } else if d == 5 {
        "5"
    } else if d == 6 {
        "6"
    } else if d == 7 {
        "7"
    } else if d == 8 {
        "8"
    } else {
        "9"
    };
    assert(text@ =~= seq![digit_char(d as nat)]);
    text
}

/// Writes `n` in decimal.
pub fn decimal(n: usize) -> (text: String)
    ensures
        text@ == numeral(n as nat),
    decreases n,
{
    if n < 10 {
        digit_text(n).to_owned()
    } else {
        let mut text = decimal(n / 10);
        text.append(digit_text(n % 10));
        assert(text@ =~= numeral(n as nat));
        text
    }
}

/// Appends `n` in decimal to `out`.
pub fn push_decimal(out: &mut String, n: usize)
    ensures
        final(out)@ == old(out)@ + numeral(n as nat),
{
    let text = decimal(n);
    out.append(text.as_str());
}

/// The digits of `s`, which may stand behind one plus sign.
pub open spec fn unsigned_part(s: Seq<char>) -> Seq<char> {
    if s.len() > 0 && s[0] == '+' {
        s.drop_first()
    } else {
        s
    }
}

/// The number that `s` writes, if it writes one that is at most `max`: an
/// optional plus sign, then one digit or more and nothing else.
pub open spec fn parsed(s: Seq<char>, max: nat) -> Option<nat> {
    let digits = unsigned_part(s);
    if digits.len() > 0 && all_digits(digits) && digits_value(digits) <= max {
        Some(digits_value(digits))
    } else {
        None
    }
}

/// The digits read so far never write more than all the digits do.
pub proof fn lemma_digits_value_prefix(s: Seq<char>, k: int)
    requires
        0 <= k <= s.len(),
    ensures
        digits_value(s.take(k)) <= digits_value(s),
    decreases s.len() - k,
{
    if k == s.len() {
        assert(s.take(k) =~= s);
    } else {
        assert(s.drop_last().take(k) =~= s.take(k));
        lemma_digits_value_prefix(s.drop_last(), k);
    }
}

/// Reading the numeral of a number gives the number back.
pub proof fn lemma_parsed_numeral(n: nat, max: nat)
    requires
        n <= max,
    ensures
        parsed(numeral(n), max) == Some(n),
{
    lemma_numeral_value(n);
    assert(is_digit(numeral(n)[0]));
}

/// Reads a number in decimal: an optional plus sign, then digits only. The
/// text is refused where it holds anything else, no digit at all, or a
/// number too large for `usize`.
pub fn parse_usize(text: &str) -> (r: Option<usize>)
    ensures
        r is Some <==> parsed(text@, usize::MAX as nat) is Some,
        r matches Some(n) ==> parsed(text@, usize::MAX as nat) == Some(n as nat),
{
    let ghost digits = unsigned_part(text@);
    let ghost off = text@.len() - digits.len();
    let mut value: usize = 0;
    let mut ok: bool = true;
    let mut first: bool = true;
    let mut count: usize = 0;
    let total: usize = text.unicode_len();
    for c in it: text.chars()
        invariant
            it.seq() == text@,
            total == text@.len(),
            digits == unsigned_part(text@),
            off == text@.len() - digits.len(),
            first <==> it.index() == 0,
            count <= it.index(),
            count == (if it.index() >= off { it.index() - off } else { 0 }),
            ok ==> all_digits(digits.take(count as int)) && value == digits_value(
                digits.take(count as int),
            ),
            !ok ==> !all_digits(digits) || digits_value(digits) > usize::MAX,
    {
        if first && c == '+' {
            first = false;
        } else {
            first = false;
            let ghost k = count as int;
            proof {
                assert(digits[k] == c);
                assert(digits.take(k + 1).drop_last() =~= digits.take(k));
                assert(digits.take(k + 1).last() == c);
            }
            let u: u32 = c as u32;
            if ok {
                if 48 <= u && u <= 57 {
                    let d: usize = (u - 48) as usize;
                    if value <= (usize::MAX - d) / 10 {
                        value = value * 10 + d;
                    } else {
                        ok = false;
                        proof {
                            lemma_digits_value_prefix(digits, k + 1);
                        }
                    }
                } else {
                    ok = false;
                    assert(!is_digit(digits[k]));
                }
            }
            count = count + 1;
        }
    }
    assert(digits.take(count as int) =~= digits);
    if ok && count > 0 {
        Some(value)
    } else {
        None
    }
}

} // verus!
