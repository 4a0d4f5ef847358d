use vstd::prelude::*;
use vstd::string::{StrSliceExecFns, StringExecFns};

verus! {

/// The character of the decimal digit `d`.
pub open spec fn digit_char(d: nat) -> char {
    seq!['0', '1', '2', '3', '4', '5', '6', '7', '8', '9'][d as int]
}

/// `n` written in decimal, without leading zeros.
pub open spec fn decimal(n: nat) -> Seq<char>
    decreases n,
{
    if n < 10 {
        seq![digit_char(n)]
    } else {
        decimal(n / 10).push(digit_char(n % 10))
    }
}

fn digit_str(d: usize) -> (r: &'static str)
    requires
        d < 10,
    ensures
        r@ == seq![digit_char(d as nat)],
{
    match d {
        0 => { proof { reveal_strlit("0"); } "0" },
        1 => { proof { reveal_strlit("1"); } "1" },
        2 => { proof { reveal_strlit("2"); } "2" },
        3 => { proof { reveal_strlit("3"); } "3" },
        4 => { proof { reveal_strlit("4"); } "4" },
        5 => { proof { reveal_strlit("5"); } "5" },
        6 => { proof { reveal_strlit("6"); } "6" },
        7 => { proof { reveal_strlit("7"); } "7" },
        8 => { proof { reveal_strlit("8"); } "8" },
        _ => { proof { reveal_strlit("9"); } "9" },
    }
}

/// Appends `n` in decimal to `s`.
pub fn push_decimal(s: &mut String, n: usize)
    ensures
        final(s)@ == old(s)@ + decimal(n as nat),
    decreases n,
{
    if n >= 10 {
        push_decimal(s, n / 10);
    }
    s.append(digit_str(n % 10));
    assert(s@ =~= old(s)@ + decimal(n as nat));
}

pub open spec fn is_digit(c: char) -> bool {
    '0' <= c && c <= '9'
}

/// The value of a string of decimal digits.
pub open spec fn digits_value(t: Seq<char>) -> nat
    decreases t.len(),
{
    if t.len() == 0 {
        0
    } else {
        digits_value(t.drop_last()) * 10 + (t.last() as nat - '0' as nat) as nat
    }
}

/// What `t` reads as: one or more decimal digits and nothing else.
pub open spec fn digits_number(t: Seq<char>) -> Option<nat> {
    if t.len() > 0 && forall|i: int| 0 <= i < t.len() ==> is_digit(#[trigger] t[i]) {
        Some(digits_value(t))
    } else {
        None
    }
}

/// `t` without one leading `+`, where it has one.
pub open spec fn sans_plus(t: Seq<char>) -> Seq<char> {
    if t.len() > 0 && t[0] == '+' {
        t.drop_first()
    } else {
        t
    }
}

/// What `t` reads as: an optional `+`, then one or more decimal digits and
/// nothing else.
pub open spec fn number_of(t: Seq<char>) -> Option<nat> {
    digits_number(sans_plus(t))
}

/// What `t` reads as, where that fits in a `u64`.
pub open spec fn number_u64(t: Seq<char>) -> Option<u64> {
    match number_of(t) {
        Some(n) => if n <= u64::MAX {
            Some(n as u64)
        } else {
            None
        },
        None => None,
    }
}

/// Reads the characters `lo .. hi` of `s` as an optional `+` and a decimal number.
fn parse_span(s: &str, lo: usize, hi: usize) -> (r: Option<u64>)
    requires
        lo <= hi <= s@.len(),
    ensures
        r == number_u64(s@.subrange(lo as int, hi as int)),
{
    if lo < hi && s.get_char(lo) == '+' {
        assert(s@.subrange(lo as int, hi as int).drop_first() =~= s@.subrange(lo + 1, hi as int));
        parse_digits(s, lo + 1, hi)
    } else {
        parse_digits(s, lo, hi)
    }
}

/// What `t`, digits alone, reads as, where that fits in a `u64`.
pub open spec fn digits_u64(t: Seq<char>) -> Option<u64> {
    match digits_number(t) {
        Some(n) => if n <= u64::MAX {
            Some(n as u64)
        } else {
            None
        },
        None => None,
    }
}

/// Reads the characters `lo .. hi` of `s` as decimal digits.
fn parse_digits(s: &str, lo: usize, hi: usize) -> (r: Option<u64>)
    requires
        lo <= hi <= s@.len(),
    ensures
        r == digits_u64(s@.subrange(lo as int, hi as int)),
{
    let ghost t = s@.subrange(lo as int, hi as int);
    if lo == hi {
        return None;
    }
    let mut acc: u64 = 0;
    let mut i: usize = lo;
    let mut fits = true;
    while i < hi
        invariant
            lo <= i <= hi <= s@.len(),
            t == s@.subrange(lo as int, hi as int),
            forall|j: int| 0 <= j < i - lo ==> is_digit(#[trigger] t[j]),
            fits ==> acc == digits_value(t.take(i - lo)),
            !fits ==> digits_value(t.take(i - lo)) > u64::MAX,
        decreases hi - i,
    {
        let c = s.get_char(i);
        if !('0' <= c && c <= '9') {
            assert(!is_digit(t[i - lo]));
            return None;
        }
        let d = (c as u32 - '0' as u32) as u64;
        let ghost p = t.take(i + 1 - lo);
        assert(p.drop_last() =~= t.take(i - lo));
        assert(p.last() == c);
        assert(digits_value(p) == digits_value(t.take(i - lo)) * 10 + d);
        if fits {
            match acc.checked_mul(10) {
                Some(m) => match m.checked_add(d) {
                    Some(v) => {
                        acc = v;
                    },
                    None => {
                        fits = false;
                    },
                },
                None => {
                    fits = false;
                },
            }
        } else {
            assert(digits_value(p) >= digits_value(t.take(i - lo))) by (nonlinear_arith)
                requires
                    digits_value(p) == digits_value(t.take(i - lo)) * 10 + d,
            ;
        }
        i = i + 1;
    }
    assert(t.take(hi - lo) =~= t);
    if fits {
        Some(acc)
    } else {
        None
    }
}

/// Reads `s` as a decimal number: an optional `+`, then one or more ASCII
/// digits and nothing else, worth at most `u64::MAX`.
pub fn parse_number(s: &str) -> (r: Option<u64>)
    ensures
        r == number_u64(s@),
{
    let n = s.unicode_len();
    assert(s@.subrange(0, n as int) =~= s@);
    parse_span(s, 0, n)
}

/// The characters of Unicode's `White_Space` property.
pub open spec fn is_space(c: char) -> bool {
    ('\u{9}' <= c && c <= '\u{D}') || c == ' ' || c == '\u{85}' || c == '\u{A0}' || c
        == '\u{1680}' || ('\u{2000}' <= c && c <= '\u{200A}') || c == '\u{2028}' || c
        == '\u{2029}' || c == '\u{202F}' || c == '\u{205F}' || c == '\u{3000}'
}

pub open spec fn strip_front(t: Seq<char>) -> Seq<char>
    decreases t.len(),
{
    if t.len() > 0 && is_space(t[0]) {
        strip_front(t.drop_first())
    } else {
        t
    }
}

pub open spec fn strip_back(t: Seq<char>) -> Seq<char>
    decreases t.len(),
{
    if t.len() > 0 && is_space(t.last()) {
        strip_back(t.drop_last())
    } else {
        t
    }
}

/// `t` without the whitespace at either end.
pub open spec fn trim_spaces(t: Seq<char>) -> Seq<char> {
    strip_back(strip_front(t))
}

fn space_char(c: char) -> (r: bool)
    ensures
        r == is_space(c),
{
    ('\u{9}' <= c && c <= '\u{D}') || c == ' ' || c == '\u{85}' || c == '\u{A0}' || c
        == '\u{1680}' || ('\u{2000}' <= c && c <= '\u{200A}') || c == '\u{2028}' || c
        == '\u{2029}' || c == '\u{202F}' || c == '\u{205F}' || c == '\u{3000}'
}

/// Reads `s`, without the whitespace at either end, as a decimal number.
pub fn parse_trimmed(s: &str) -> (r: Option<u64>)
    ensures
        r == number_u64(trim_spaces(s@)),
{
    let n = s.unicode_len();
    let mut lo: usize = 0;
    assert(s@.subrange(0, n as int) =~= s@);
    while lo < n && space_char(s.get_char(lo))
        invariant
            lo <= n == s@.len(),
            strip_front(s@) == strip_front(s@.subrange(lo as int, n as int)),
        decreases n - lo,
    {
        assert(s@.subrange(lo as int, n as int).drop_first() =~= s@.subrange(lo + 1, n as int));
        lo = lo + 1;
    }
    let ghost front = s@.subrange(lo as int, n as int);
    assert(strip_front(front) == front);
    let mut hi: usize = n;
    assert(front.subrange(0, (n - lo) as int) =~= front);
    while hi > lo && space_char(s.get_char(hi - 1))
        invariant
            lo <= hi <= n == s@.len(),
            front == s@.subrange(lo as int, n as int),
            strip_back(front) == strip_back(s@.subrange(lo as int, hi as int)),
        decreases hi,
    {
        assert(s@.subrange(lo as int, hi as int).drop_last() =~= s@.subrange(lo as int, hi - 1));
        hi = hi - 1;
    }
    assert(strip_back(s@.subrange(lo as int, hi as int)) == s@.subrange(lo as int, hi as int));
    parse_span(s, lo, hi)
}

} // verus!
