//! Numbers written as text, and text set to a width.

use vstd::prelude::*;

use crate::text::string_of;

verus! {

// ---------------------------------------------------------------------------
// Reading
// ---------------------------------------------------------------------------

/// The value of `c` as a digit, where it is one in some base up to 36.
pub open spec fn digit_value(c: char) -> Option<nat> {
    if '0' <= c <= '9' {
        Some((c as u32 - '0' as u32) as nat)
    } else if 'a' <= c <= 'z' {
        Some((c as u32 - 'a' as u32 + 10) as nat)
    } else if 'A' <= c <= 'Z' {
        Some((c as u32 - 'A' as u32 + 10) as nat)
    } else {
        None
    }
}

/// `c` is a digit in base `radix`.
pub open spec fn is_digit(c: char, radix: nat) -> bool {
    digit_value(c) matches Some(d) && d < radix
}

/// The number that the digits `s` write in base `radix`.
pub open spec fn digits_value(s: Seq<char>, radix: nat) -> nat
    decreases s.len(),
{
    if s.len() == 0 {
        0
    } else {
        digits_value(s.drop_last(), radix) * radix + digit_value(s.last()).unwrap()
    }
}

/// `s` without one leading plus sign.
pub open spec fn without_plus(s: Seq<char>) -> Seq<char> {
    if s.len() > 0 && s[0] == '+' {
        s.drop_first()
    } else {
        s
    }
}

/// The number that `s` writes in base `radix`: at least one digit, nothing but digits, an
/// optional plus sign before them, and no more than `max`.
pub open spec fn number_in(s: Seq<char>, radix: nat, max: nat) -> Option<nat> {
    let digits = without_plus(s);
    if digits.len() == 0 || exists|i: int|
        0 <= i < digits.len() && !is_digit(#[trigger] digits[i], radix) || digits_value(
        digits,
        radix,
    ) > max {
        None
    } else {
        Some(digits_value(digits, radix))
    }
}

/// A longer run of digits writes no smaller number.
proof fn lemma_digits_grow(s: Seq<char>, radix: nat, n: int)
    requires
        0 <= n <= s.len(),
        radix >= 1,
    ensures
        digits_value(s.take(n), radix) <= digits_value(s, radix),
    decreases s.len() - n,
{
    if n == s.len() {
        assert(s.take(n) =~= s);
    } else {
        lemma_digits_grow(s, radix, n + 1);
        assert(s.take(n + 1).drop_last() =~= s.take(n));
        let v = digits_value(s.take(n), radix);
        assert(v <= v * radix) by (nonlinear_arith)
            requires
                radix >= 1,
        ;
    }
}

/// Reads one digit.
fn digit_of(c: char) -> (d: Option<u64>)
    ensures
        match d {
            Some(v) => digit_value(c) == Some(v as nat) && v < 36,
            None => digit_value(c) is None,
        },
{
    if '0' <= c && c <= '9' {
        Some((c as u32 - '0' as u32) as u64)
    } else if 'a' <= c && c <= 'z' {
        Some((c as u32 - 'a' as u32 + 10) as u64)
    } else if 'A' <= c && c <= 'Z' {
        Some((c as u32 - 'A' as u32 + 10) as u64)
    } else {
        None
    }
}

/// Reads the number that `chars` writes in base `radix`, if it is no more than `max`.
pub fn read_number(chars: &[char], radix: u64, max: u64) -> (value: Option<u64>)
    requires
        2 <= radix <= 36,
    ensures
        match value {
            Some(v) => number_in(chars@, radix as nat, max as nat) == Some(v as nat),
            None => number_in(chars@, radix as nat, max as nat) is None,
        },
{
    let mut at: usize = 0;
    if chars.len() > 0 && chars[0] == '+' {
        at = 1;
    }
    let start: usize = at;
    let ghost digits = without_plus(chars@);
    assert(digits =~= chars@.skip(start as int));
    if at == chars.len() {
        return None;
    }
    let mut total: u128 = 0;
    while at < chars.len()
        invariant
            2 <= radix <= 36,
            start <= at <= chars@.len(),
            digits == without_plus(chars@),
            digits == chars@.skip(start as int),
            forall|j: int| 0 <= j < at - start ==> is_digit(#[trigger] digits[j], radix as nat),
            total == digits_value(digits.take(at - start), radix as nat),
            total <= max,
        decreases chars@.len() - at,
    {
        let ghost n = at - start;
        assert(digits[n] == chars@[at as int]);
        assert(digits.take(n + 1).drop_last() =~= digits.take(n));
        let d: u64 = match digit_of(chars[at]) {
            Some(d) => d,
            None => {
                assert(!is_digit(digits[n], radix as nat));
                return None;
            },
        };
        if d >= radix {
            assert(!is_digit(digits[n], radix as nat));
            return None;
        }
        assert(total * radix + d <= 0xffff_ffff_ffff_ffff * 36 + 36) by (nonlinear_arith)
            requires
                total <= 0xffff_ffff_ffff_ffff,
                radix <= 36,
                d < 36,
        ;
        assert(total * radix >= 0) by (nonlinear_arith);
        total = total * (radix as u128) + (d as u128);
        assert(total == digits_value(digits.take(n + 1), radix as nat));
        if total > max as u128 {
            proof {
                lemma_digits_grow(digits, radix as nat, n + 1);
            }
            return None;
        }
        at = at + 1;
    }
    assert(digits.take(digits.len() as int) =~= digits);
    Some(total as u64)
}

// ---------------------------------------------------------------------------
// Writing
// ---------------------------------------------------------------------------

/// The decimal digit `d`.
pub open spec fn digit_char(d: nat) -> char {
    ('0' as u32 + d) as char
}

/// `n` written in decimal, without leading zeros.
pub open spec fn decimal(n: nat) -> Seq<char>
    decreases n,
{
    if n < 10 {
        seq![digit_char(n)]
    } else {
        decimal(n / 10).push(digit_char(n % 10))
    }
}

/// The decimal digits of `n`.
pub fn decimal_chars(n: u128) -> (out: Vec<char>)
    ensures
        out@ == decimal(n as nat),
    decreases n,
{
    if n < 10 {
        let mut out: Vec<char> = Vec::new();
        out.push(('0' as u8 + n as u8) as char);
        assert(out@ =~= decimal(n as nat));
        out
    } else {
        let mut out = decimal_chars(n / 10);
        out.push(('0' as u8 + (n % 10) as u8) as char);
        out
    }
}

/// `n` written in decimal.
pub fn decimal_text(n: u128) -> (out: String)
    ensures
        out@ == decimal(n as nat),
{
    let digits = decimal_chars(n);
    string_of(digits.as_slice())
}

// ---------------------------------------------------------------------------
// Setting to a width
// ---------------------------------------------------------------------------

/// `c`, `n` times.
pub open spec fn run_of(c: char, n: int) -> Seq<char> {
    Seq::new(
        if n > 0 {
            n as nat
        } else {
            0
        },
        |i: int| c,
    )
}

/// `s` with as many `c`s before it as bring it to `width`.
pub open spec fn padded_start(s: Seq<char>, c: char, width: int) -> Seq<char> {
    run_of(c, width - s.len()) + s
}

/// `s` with as many spaces after it as bring it to `width`.
pub open spec fn padded_end(s: Seq<char>, width: int) -> Seq<char> {
    s + run_of(' ', width - s.len())
}

/// `c`, `n` times.
pub fn run_text(c: char, n: usize) -> (out: String)
    ensures
        out@ == run_of(c, n as int),
{
    let mut out: String = String::new();
    assert(out@ =~= run_of(c, 0));
    for i in 0..n
        invariant
            out@ == run_of(c, i as int),
    {
        out.push(c);
        assert(out@ =~= run_of(c, i + 1));
    }
    out
}

/// `n` in decimal, with as many `c`s before it as bring it to `width`.
pub fn number_padded_start(n: u64, c: char, width: usize) -> (out: String)
    ensures
        out@ == padded_start(decimal(n as nat), c, width as int),
{
    let digits = decimal_chars(n as u128);
    let len: usize = digits.len();
    let missing: usize = if len < width {
        width - len
    } else {
        0
    };
    let mut out = run_text(c, missing);
    assert(out@ =~= run_of(c, width - len));
    out.append(string_of(digits.as_slice()).as_str());
    out
}

/// `n` in decimal, with as many spaces after it as bring it to `width`.
pub fn number_padded_end(n: u64, width: usize) -> (out: String)
    ensures
        out@ == padded_end(decimal(n as nat), width as int),
{
    let digits = decimal_chars(n as u128);
    let len: usize = digits.len();
    let missing: usize = if len < width {
        width - len
    } else {
        0
    };
    let mut out = string_of(digits.as_slice());
    let pad = run_text(' ', missing);
    assert(pad@ =~= run_of(' ', width - len));
    out.append(pad.as_str());
    out
}

// ---------------------------------------------------------------------------
// Counting
// ---------------------------------------------------------------------------

/// `n` as a counter of sixty-four bits holds it.
#[verifier::opaque]
pub open spec fn counted(n: int) -> u64 {
    (n % 0x1_0000_0000_0000_0000) as u64
}

/// Adding to a counter that wraps counts on.
pub proof fn lemma_counted(n: int, more: u64)
    requires
        n >= 0,
    ensures
        counted(n + more) == if counted(n) + more > u64::MAX {
            counted(n) + more - 0x1_0000_0000_0000_0000
        } else {
            counted(n) + more
        },
{
    reveal(counted);
}

} // verus!
