//! What the operations on texts come down to.

use vstd::prelude::*;
use vstd::string::*;

use crate::text::{
    ascii_lower, contains, decimal, decimal_of, digit, has_part, head, is_white, occurs_at,
    starts_with, str_eq, take_chars, trimmed, trimmed_end, trimmed_start,
};

verus! {

/// The text is something, then the part, then something.
pub open spec fn holds(s: Seq<char>, part: Seq<char>) -> bool {
    exists|before: Seq<char>, after: Seq<char>| s == #[trigger] (before + part + after)
}

/// A part is found in a text exactly where the text holds it.
pub proof fn lemma_holds(s: Seq<char>, part: Seq<char>)
    ensures
        has_part(s, part) <==> holds(s, part),
{
    if has_part(s, part) {
        let i = choose|i: int| occurs_at(s, part, i);
        let (before, after) = (s.take(i), s.skip(i + part.len()));
        assert(s =~= before + part + after) by {
            let here = s.subrange(i, i + part.len());
            assert forall|j: int| i <= j < i + part.len() implies s[j] == (before + part
                + after)[j] by {
                assert(here[j - i] == part[j - i]);
            }
        }
    }
    if holds(s, part) {
        let (before, after) = choose|before: Seq<char>, after: Seq<char>|
            s == #[trigger] (before + part + after);
        let i = before.len() as int;
        assert(s.subrange(i, i + part.len()) =~= part);
        assert(occurs_at(s, part, i));
    }
}

/// White space is what Unicode says: in ASCII the space, the tabulators and what ends a line or a
/// page, beyond it the other spaces and separators.
pub proof fn lemma_white(c: char)
    ensures
        (c as u32) < 0x80 ==> (is_white(c) <==> c == '\t' || c == '\n' || c == '\u{b}' || c
            == '\u{c}' || c == '\r' || c == ' '),
        (c as u32) >= 0x80 ==> (is_white(c) <==> c == '\u{85}' || c == '\u{a0}' || c == '\u{1680}'
            || (0x2000 <= c as u32 <= 0x200a) || c == '\u{2028}' || c == '\u{2029}' || c
            == '\u{202f}' || c == '\u{205f}' || c == '\u{3000}'),
{
}

/// All characters are white space.
pub open spec fn all_white(s: Seq<char>) -> bool {
    forall|i: int| 0 <= i < s.len() ==> is_white(#[trigger] s[i])
}

proof fn lemma_start(s: Seq<char>) -> (n: int)
    ensures
        0 <= n <= s.len(),
        trimmed_start(s) == s.skip(n),
        all_white(s.take(n)),
        n < s.len() ==> !is_white(s[n]),
    decreases s.len(),
{
    if s.len() > 0 && is_white(s[0]) {
        let rest = s.drop_first();
        let m = lemma_start(rest);
        assert(rest.skip(m) =~= s.skip(m + 1));
        assert forall|i: int| 0 <= i < s.take(m + 1).len() implies is_white(
            #[trigger] s.take(m + 1)[i],
        ) by {
            if i > 0 {
                assert(rest.take(m)[i - 1] == s[i]);
            }
        }
        m + 1
    } else {
        assert(s.skip(0) =~= s);
        0
    }
}

proof fn lemma_end(s: Seq<char>) -> (n: int)
    ensures
        0 <= n <= s.len(),
        trimmed_end(s) == s.take(n),
        all_white(s.skip(n)),
        n > 0 ==> !is_white(s[n - 1]),
    decreases s.len(),
{
    if s.len() > 0 && is_white(s.last()) {
        let rest = s.drop_last();
        let m = lemma_end(rest);
        assert(rest.take(m) =~= s.take(m));
        assert forall|i: int| 0 <= i < s.skip(m).len() implies is_white(#[trigger] s.skip(m)[i]) by {
            if m + i < rest.len() {
                assert(rest.skip(m)[i] == s[m + i]);
            }
        }
        m
    } else {
        assert(s.take(s.len() as int) =~= s);
        s.len() as int
    }
}

/// Trimming takes white space off both ends, all of it, and nothing else.
pub proof fn lemma_trimmed(s: Seq<char>)
    ensures
        exists|before: Seq<char>, after: Seq<char>|
            s == #[trigger] (before + trimmed(s) + after) && all_white(before) && all_white(after),
        trimmed(s).len() > 0 ==> !is_white(trimmed(s)[0]) && !is_white(trimmed(s).last()),
        trimmed(s).len() == 0 <==> all_white(s),
{
    let n = lemma_start(s);
    let rest = s.skip(n);
    let m = lemma_end(rest);
    let (before, after) = (s.take(n), rest.skip(m));
    assert(s =~= before + trimmed(s) + after);
    if trimmed(s).len() > 0 {
        assert(trimmed(s)[0] == s[n]);
        if all_white(s) {
            assert(is_white(s[n]));
        }
    } else {
        assert forall|i: int| 0 <= i < s.len() implies is_white(#[trigger] s[i]) by {
            if i < n {
                assert(before[i] == s[i]);
            } else {
                assert(after[i - n] == s[i]);
            }
        }
    }
}

/// The number that decimal digits stand for.
pub open spec fn number_of_digits(s: Seq<char>) -> int
    decreases s.len(),
{
    if s.len() == 0 {
        0
    } else {
        10 * number_of_digits(s.drop_last()) + (s.last() as u32 - '0' as u32)
    }
}

/// A number in decimal is made of digits, stands for the number, and does not start with a zero
/// unless it is one.
pub proof fn lemma_decimal(n: nat)
    ensures
        number_of_digits(decimal_of(n)) == n,
        decimal_of(n).len() > 0,
        forall|i: int| 0 <= i < decimal_of(n).len() ==> '0' <= #[trigger] decimal_of(n)[i] <= '9',
        decimal_of(n)[0] == '0' ==> n == 0,
    decreases n,
{
    if n >= 10 {
        lemma_decimal(n / 10);
        let s = decimal_of(n);
        assert(s.drop_last() =~= decimal_of(n / 10));
        assert forall|i: int| 0 <= i < s.len() implies '0' <= #[trigger] s[i] <= '9' by {
            if i < s.len() - 1 {
                assert(s[i] == decimal_of(n / 10)[i]);
            }
        }
        assert(s[0] == decimal_of(n / 10)[0]);
    } else {
        let s = decimal_of(n);
        reveal_with_fuel(number_of_digits, 2);
        assert(s.drop_last().len() == 0);
        assert(s.last() == digit(n as int));
    }
}

/// The start of a text is as long as it may be.
pub proof fn lemma_head(s: Seq<char>, n: int)
    requires
        n >= 0,
    ensures
        head(s, n).is_prefix_of(s),
        s.len() <= n ==> head(s, n) == s,
        s.len() > n ==> head(s, n).len() == n,
{
    if s.len() <= n {
        assert(s.take(s.len() as int) =~= s);
    } else {
        assert(s.take(n).take(n) =~= s.take(n));
    }
}

/// In lower case a capital letter is the small one, and every other character is itself.
pub proof fn lemma_ascii_lower(c: char)
    requires
        (c as u32) < 0x80,
    ensures
        'A' <= c <= 'Z' ==> 'a' <= ascii_lower(c) <= 'z' && ascii_lower(c) as u32 - 'a' as u32
            == c as u32 - 'A' as u32,
        !('A' <= c <= 'Z') ==> ascii_lower(c) == c,
{
}

/// The operations on texts do what is told above: a part is found, a start is recognised, white
/// space is taken off, a start is cut off, and a number is written.
pub proof fn lemma_text_calls(
    s: &str,
    part: &str,
    n: usize,
    value: u64,
    found: bool,
    starts: bool,
    same: bool,
    start: String,
    written: String,
)
    requires
        call_ensures(contains, (s, part), found),
        call_ensures(starts_with, (s, part), starts),
        call_ensures(str_eq, (s, part), same),
        call_ensures(take_chars, (s, n), start),
        call_ensures(decimal, (value,), written),
    ensures
        found <==> holds(s@, part@),
        starts <==> exists|after: Seq<char>| s@ == #[trigger] (part@ + after),
        same <==> s@ == part@,
        s@.len() <= n ==> start@ == s@,
        s@.len() > n ==> start@ == s@.take(n as int),
        number_of_digits(written@) == value,
        written@.len() > 0,
        written@[0] == '0' ==> value == 0,
{
    lemma_holds(s@, part@);
    lemma_decimal(value as nat);
    if starts {
        assert(s@ =~= part@ + s@.skip(part@.len() as int));
    }
    if exists|after: Seq<char>| s@ == #[trigger] (part@ + after) {
        let after = choose|after: Seq<char>| s@ == #[trigger] (part@ + after);
        assert(s@.take(part@.len() as int) =~= part@);
    }
}

} // verus!
