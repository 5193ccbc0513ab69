//! Decimal integers: parsing text into `i32`/`i64` the way `str::parse`
//! does, and writing an `i64` in decimal the way `to_string` does.
use vstd::prelude::*;

use crate::text::{chars_of, string_from_chars};

verus! {

/// Why a piece of text is not a decimal integer of the wanted type.
#[derive(Clone, Copy, Debug, PartialEq, Eq, Structural)]
pub enum IntErrorKind {
    /// The text is empty.
    Empty,
    /// The text holds something other than an optional sign and digits.
    InvalidDigit,
    /// The number is above the type's maximum.
    PosOverflow,
    /// The number is below the type's minimum.
    NegOverflow,
}

impl IntErrorKind {
    /// The message that `std` gives for this kind of error.
    pub fn message(&self) -> (m: &'static str)
        ensures
            m@ == int_error_message(*self),
    {
        match self {
            IntErrorKind::Empty => "cannot parse integer from empty string",
            IntErrorKind::InvalidDigit => "invalid digit found in string",
            IntErrorKind::PosOverflow => "number too large to fit in target type",
            IntErrorKind::NegOverflow => "number too small to fit in target type",
        }
    }
}

pub open spec fn int_error_message(k: IntErrorKind) -> Seq<char> {
    match k {
        IntErrorKind::Empty => "cannot parse integer from empty string"@,
        IntErrorKind::InvalidDigit => "invalid digit found in string"@,
        IntErrorKind::PosOverflow => "number too large to fit in target type"@,
        IntErrorKind::NegOverflow => "number too small to fit in target type"@,
    }
}

pub open spec fn is_digit(c: char) -> bool {
    '0' <= c && c <= '9'
}

pub open spec fn digit_value(c: char) -> int {
    c as int - '0' as int
}

pub open spec fn digit_char(d: int) -> char {
    (d + '0' as int) as char
}

/// Reads the digits `d[i..]` into the magnitude `acc`, left to right,
/// stopping at the first character that is not a digit or at the first
/// digit that takes the number out of `lo..=hi`.
pub open spec fn scan_digits(d: Seq<char>, i: int, acc: int, neg: bool, lo: int, hi: int) -> Result<
    int,
    IntErrorKind,
>
    decreases d.len() - i,
{
    if i < 0 || i >= d.len() {
        Ok(
            if neg {
                -acc
            } else {
                acc
            },
        )
    } else if !is_digit(d[i]) {
        Err(IntErrorKind::InvalidDigit)
    } else {
        let a = acc * 10 + digit_value(d[i]);
        if !neg && a > hi {
            Err(IntErrorKind::PosOverflow)
        } else if neg && -a < lo {
            Err(IntErrorKind::NegOverflow)
        } else {
            scan_digits(d, i + 1, a, neg, lo, hi)
        }
    }
}

/// The integer that `s` spells for a signed type ranging over `lo..=hi`:
/// an optional `+` or `-` followed by at least one ASCII digit.
pub open spec fn parse_int(s: Seq<char>, lo: int, hi: int) -> Result<int, IntErrorKind> {
    if s.len() == 0 {
        Err(IntErrorKind::Empty)
    } else if (s[0] == '+' || s[0] == '-') && s.len() == 1 {
        Err(IntErrorKind::InvalidDigit)
    } else if s[0] == '+' {
        scan_digits(s, 1, 0, false, lo, hi)
    } else if s[0] == '-' {
        scan_digits(s, 1, 0, true, lo, hi)
    } else {
        scan_digits(s, 0, 0, false, lo, hi)
    }
}

/// The number that `s` spells for an unsigned type ranging over `0..=hi`:
/// an optional `+` followed by at least one ASCII digit (a `-` is not a
/// sign here, so it is an invalid digit).
pub open spec fn parse_uint(s: Seq<char>, hi: int) -> Result<int, IntErrorKind> {
    if s.len() == 0 {
        Err(IntErrorKind::Empty)
    } else if (s[0] == '+' || s[0] == '-') && s.len() == 1 {
        Err(IntErrorKind::InvalidDigit)
    } else if s[0] == '+' {
        scan_digits(s, 1, 0, false, 0, hi)
    } else {
        scan_digits(s, 0, 0, false, 0, hi)
    }
}

pub open spec fn parse_u8_spec(s: Seq<char>) -> Result<int, IntErrorKind> {
    parse_uint(s, 255)
}

pub open spec fn parse_i64_spec(s: Seq<char>) -> Result<int, IntErrorKind> {
    parse_int(s, i64::MIN as int, i64::MAX as int)
}

/// The decimal digits of `n`, most significant first, without leading zeros.
pub open spec fn digits_of(n: nat) -> Seq<char>
    decreases n,
{
    if n < 10 {
        seq![digit_char(n as int)]
    } else {
        digits_of(n / 10).push(digit_char((n % 10) as int))
    }
}

/// `x` written in decimal, with a leading `-` when it is negative.
pub open spec fn decimal(x: int) -> Seq<char> {
    if x < 0 {
        seq!['-'] + digits_of((-x) as nat)
    } else {
        digits_of(x as nat)
    }
}

/// The number that a run of digits spells.
pub open spec fn digits_value(d: Seq<char>) -> int
    decreases d.len(),
{
    if d.len() == 0 {
        0
    } else {
        digits_value(d.drop_last()) * 10 + digit_value(d.last())
    }
}

pub open spec fn all_digits(d: Seq<char>) -> bool {
    forall|k: int| 0 <= k < d.len() ==> is_digit(#[trigger] d[k])
}

fn parse_int_chars(s: &Vec<char>, lo: i64, hi: i64) -> (r: Result<i64, IntErrorKind>)
    requires
        lo < 0 < hi,
    ensures
        match r {
            Ok(v) => parse_int(s@, lo as int, hi as int) == Ok::<int, IntErrorKind>(v as int) && lo
                <= v <= hi,
            Err(e) => parse_int(s@, lo as int, hi as int) == Err::<int, IntErrorKind>(e),
        },
{
    if s.len() == 0 {
        return Err(IntErrorKind::Empty);
    }
    if (s[0] == '+' || s[0] == '-') && s.len() == 1 {
        return Err(IntErrorKind::InvalidDigit);
    }
    let neg = s[0] == '-';
    let mut i: usize = if s[0] == '+' || s[0] == '-' {
        1
    } else {
        0
    };
    let mut acc: i128 = 0;
    while i < s.len()
        invariant
            i <= s.len(),
            lo < 0 < hi,
            0 <= acc,
            !neg ==> acc <= hi,
            neg ==> -acc >= lo,
            parse_int(s@, lo as int, hi as int) == scan_digits(
                s@,
                i as int,
                acc as int,
                neg,
                lo as int,
                hi as int,
            ),
        decreases s.len() - i,
    {
        let c = s[i];
        if !('0' <= c && c <= '9') {
            return Err(IntErrorKind::InvalidDigit);
        }
        let d = (c as u32 - '0' as u32) as i128;
        let a = acc * 10 + d;
        if !neg && a > hi as i128 {
            return Err(IntErrorKind::PosOverflow);
        }
        if neg && -a < lo as i128 {
            return Err(IntErrorKind::NegOverflow);
        }
        acc = a;
        i += 1;
    }
    if neg {
        Ok((-acc) as i64)
    } else {
        Ok(acc as i64)
    }
}

/// Parses text as a `u8`, as `str::parse::<u8>` does.
pub fn parse_u8(s: &Vec<char>) -> (r: Result<u8, IntErrorKind>)
    ensures
        match r {
            Ok(v) => parse_u8_spec(s@) == Ok::<int, IntErrorKind>(v as int),
            Err(e) => parse_u8_spec(s@) == Err::<int, IntErrorKind>(e),
        },
{
    if s.len() == 0 {
        return Err(IntErrorKind::Empty);
    }
    if (s[0] == '+' || s[0] == '-') && s.len() == 1 {
        return Err(IntErrorKind::InvalidDigit);
    }
    let mut i: usize = if s[0] == '+' {
        1
    } else {
        0
    };
    let mut acc: u32 = 0;
    while i < s.len()
        invariant
            i <= s.len(),
            acc <= 255,
            parse_u8_spec(s@) == scan_digits(s@, i as int, acc as int, false, 0, 255),
        decreases s.len() - i,
    {
        let c = s[i];
        if !('0' <= c && c <= '9') {
            return Err(IntErrorKind::InvalidDigit);
        }
        let d = c as u32 - '0' as u32;
        let a = acc * 10 + d;
        if a > 255 {
            return Err(IntErrorKind::PosOverflow);
        }
        acc = a;
        i += 1;
    }
    Ok(acc as u8)
}

/// Parses text as an `i64`, as `str::parse::<i64>` does.
pub fn parse_i64(s: &str) -> (r: Result<i64, IntErrorKind>)
    ensures
        match r {
            Ok(v) => parse_i64_spec(s@) == Ok::<int, IntErrorKind>(v as int),
            Err(e) => parse_i64_spec(s@) == Err::<int, IntErrorKind>(e),
        },
{
    let chars = chars_of(s);
    parse_int_chars(&chars, i64::MIN, i64::MAX)
}

pub proof fn lemma_digits_of(n: nat)
    ensures
        digits_of(n).len() >= 1,
        all_digits(digits_of(n)),
        digits_value(digits_of(n)) == n,
    decreases n,
{
    lemma_digit_char((n % 10) as int);
    if n >= 10 {
        lemma_digits_of(n / 10);
        let d = digits_of(n);
        assert(d.drop_last() =~= digits_of(n / 10));
        assert(d.last() == digit_char((n % 10) as int));
        assert(digits_value(d) == digits_value(digits_of(n / 10)) * 10 + (n % 10));
        assert((n / 10) * 10 + n % 10 == n) by (nonlinear_arith);
    } else {
        let d = digits_of(n);
        assert(d.drop_last() =~= Seq::<char>::empty());
        assert(n % 10 == n);
        assert(d.last() == digit_char(n as int));
        assert(digits_value(d) == digits_value(d.drop_last()) * 10 + digit_value(d.last()));
    }
}

proof fn lemma_digit_char(d: int)
    requires
        0 <= d < 10,
    ensures
        is_digit(digit_char(d)),
        digit_value(digit_char(d)) == d,
{
    assert((d + '0' as int) as char as int == d + '0' as int);
}

/// Scanning a run of digits whose value stays in bounds reaches the end
/// with that value as the magnitude.
proof fn lemma_scan_run(s: Seq<char>, i: int, j: int, neg: bool, lo: int, hi: int)
    requires
        0 <= i <= j <= s.len(),
        all_digits(s.subrange(i, j)),
        !neg ==> digits_value(s.subrange(i, j)) <= hi,
        neg ==> -digits_value(s.subrange(i, j)) >= lo,
    ensures
        scan_digits(s, i, 0, neg, lo, hi) == scan_digits(
            s,
            j,
            digits_value(s.subrange(i, j)),
            neg,
            lo,
            hi,
        ),
    decreases j - i,
{
    if j > i {
        let prev = s.subrange(i, j - 1);
        assert(s.subrange(i, j).drop_last() =~= prev);
        assert(s.subrange(i, j).last() == s[j - 1]);
        assert(is_digit(s.subrange(i, j)[j - 1 - i]));
        assert(all_digits(prev)) by {
            assert forall|k: int| 0 <= k < prev.len() implies is_digit(#[trigger] prev[k]) by {
                assert(prev[k] == s.subrange(i, j)[k]);
            }
        }
        lemma_digits_value_nonneg(prev);
        lemma_scan_run(s, i, j - 1, neg, lo, hi);
    }
}

proof fn lemma_digits_value_nonneg(d: Seq<char>)
    requires
        all_digits(d),
    ensures
        digits_value(d) >= 0,
    decreases d.len(),
{
    if d.len() > 0 {
        assert(all_digits(d.drop_last())) by {
            assert forall|k: int| 0 <= k < d.drop_last().len() implies is_digit(
                #[trigger] d.drop_last()[k],
            ) by {
                assert(d.drop_last()[k] == d[k]);
            }
        }
        assert(is_digit(d[d.len() - 1]));
        lemma_digits_value_nonneg(d.drop_last());
    }
}

/// Law: what `format_i64` writes, `parse_i64` reads back as the same number,
/// and in general the decimal text of any integer in `lo..=hi` parses to it.
pub proof fn lemma_parse_decimal(x: int, lo: int, hi: int)
    requires
        lo <= x <= hi,
    ensures
        parse_int(decimal(x), lo, hi) == Ok::<int, IntErrorKind>(x),
{
    if x < 0 {
        let m = (-x) as nat;
        lemma_digits_of(m);
        let s = decimal(x);
        let d = digits_of(m);
        assert(s.subrange(1, s.len() as int) =~= d);
        assert(is_digit(d[0]));
        assert(s[0] == '-');
        lemma_scan_run(s, 1, s.len() as int, true, lo, hi);
    } else {
        let s = decimal(x);
        lemma_digits_of(x as nat);
        assert(s.subrange(0, s.len() as int) =~= s);
        assert(is_digit(s[0]));
        lemma_scan_run(s, 0, s.len() as int, false, lo, hi);
    }
}

/// Law: the decimal digits of a number not above `hi` read back, as an
/// unsigned number, as that number.
pub proof fn lemma_parse_uint_digits(n: nat, hi: int)
    requires
        n <= hi,
    ensures
        parse_uint(digits_of(n), hi) == Ok::<int, IntErrorKind>(n as int),
{
    let s = digits_of(n);
    lemma_digits_of(n);
    assert(s.subrange(0, s.len() as int) =~= s);
    assert(is_digit(s[0]));
    lemma_scan_run(s, 0, s.len() as int, false, 0, hi);
}

/// Writes `x` in decimal, as `x.to_string()` does.
pub fn format_i64(x: i64) -> (s: String)
    ensures
        s@ == decimal(x as int),
{
    let neg = x < 0;
    let mut m: u64 = if neg {
        (-(x as i128)) as u64
    } else {
        x as u64
    };
    let ghost n0: nat = m as nat;
    let mut tail: Vec<char> = Vec::new();
    while m >= 10
        invariant
            digits_of(n0) == digits_of(m as nat) + tail@,
        decreases m,
    {
        let d = m % 10;
        let c = ((d as u32) + ('0' as u32)) as u8 as char;
        assert(c == digit_char(d as int));
        tail.insert(0, c);
        proof {
            assert(digits_of(m as nat) == digits_of((m / 10) as nat).push(digit_char(d as int)));
            assert(digits_of(n0) =~= digits_of((m / 10) as nat) + tail@);
        }
        m = m / 10;
    }
    let c = ((m as u32) + ('0' as u32)) as u8 as char;
    tail.insert(0, c);
    if neg {
        tail.insert(0, '-');
    }
    proof {
        assert(digits_of(n0) =~= tail@.subrange(if neg { 1 } else { 0 }, tail@.len() as int));
        if neg {
            assert(tail@ =~= seq!['-'] + digits_of(n0));
        } else {
            assert(tail@ =~= digits_of(n0));
        }
    }
    string_from_chars(&tail)
}

} // verus!
