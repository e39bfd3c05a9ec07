//! Decimal printing and parsing of unsigned integers, and the Unicode
//! decimal-digit class.

use vstd::prelude::*;
use crate::text::push_char;

verus! {

/// The ASCII digit for `d < 10`.
pub open spec fn digit_char(d: nat) -> char {
    ('0' as u32 + d) as char
}

/// The decimal representation of `n`, as `{}` prints it: no sign, no
/// leading zeros, `"0"` for zero.
pub open spec fn decimal_spec(n: nat) -> Seq<char>
    decreases n,
{
    if n < 10 {
        seq![digit_char(n)]
    } else {
        decimal_spec(n / 10).push(digit_char(n % 10))
    }
}

/// Appends the decimal digits of `n` to `out`.
fn push_decimal(n: u64, out: &mut String)
    ensures
        final(out)@ == old(out)@ + decimal_spec(n as nat),
    decreases n,
{
    if n >= 10 {
        push_decimal(n / 10, out);
    }
    let d = (n % 10) as u32;
    let c = char_from_digit(d);
    push_char(out, c);
}

/// The ASCII character for the digit `d`.
fn char_from_digit(d: u32) -> (c: char)
    requires
        d < 10,
    ensures
        c == digit_char(d as nat),
{
    if d == 0 { '0' }
    else if d == 1 { '1' }
    else if d == 2 { '2' }
    else if d == 3 { '3' }
    else if d == 4 { '4' }
    else if d == 5 { '5' }
    else if d == 6 { '6' }
    else if d == 7 { '7' }
    else if d == 8 { '8' }
    else { '9' }
}

/// `n.to_string()` for an unsigned integer.
pub fn decimal_string(n: u64) -> (s: String)
    ensures
        s@ == decimal_spec(n as nat),
{
    let mut s = String::new();
    push_decimal(n, &mut s);
    assert(s@ =~= decimal_spec(n as nat));
    s
}

/// Why a string is not an unsigned integer (the kinds of `std::num::ParseIntError`
/// that unsigned parsing can report).
#[derive(Clone, Copy, Debug, PartialEq, Eq, Structural)]
pub enum IntErrorKind {
    Empty,
    InvalidDigit,
    PosOverflow,
}

impl IntErrorKind {
    /// The text that `ParseIntError` displays for this kind.
    pub fn message(&self) -> (s: String)
        ensures
            s@ == self.message_spec(),
    {
        match self {
            IntErrorKind::Empty => String::from_str("cannot parse integer from empty string"),
            IntErrorKind::InvalidDigit => String::from_str("invalid digit found in string"),
            IntErrorKind::PosOverflow => String::from_str("number too large to fit in target type"),
        }
    }

    pub open spec fn message_spec(&self) -> Seq<char> {
        match self {
            IntErrorKind::Empty => "cannot parse integer from empty string"@,
            IntErrorKind::InvalidDigit => "invalid digit found in string"@,
            IntErrorKind::PosOverflow => "number too large to fit in target type"@,
        }
    }
}

/// An ASCII digit `0`..`9`.
pub open spec fn is_ascii_digit(c: char) -> bool {
    '0' <= c && c <= '9'
}

/// The value of an ASCII digit.
pub open spec fn digit_value(c: char) -> nat {
    (c as u32 - '0' as u32) as nat
}

/// Reading the digits `ds` left to right into a value at most `max`: the
/// first character that is not a digit gives `InvalidDigit`, the first digit
/// that takes the value past `max` gives `PosOverflow`.
pub open spec fn parse_digits_spec(ds: Seq<char>, max: nat) -> Result<nat, IntErrorKind>
    decreases ds.len(),
{
    if ds.len() == 0 {
        Ok(0)
    } else {
        match parse_digits_spec(ds.drop_last(), max) {
            Err(e) => Err(e),
            Ok(v) => if !is_ascii_digit(ds.last()) {
                Err(IntErrorKind::InvalidDigit)
            } else if v * 10 + digit_value(ds.last()) > max {
                Err(IntErrorKind::PosOverflow)
            } else {
                Ok(v * 10 + digit_value(ds.last()))
            },
        }
    }
}

/// What `str::parse` returns for an unsigned integer type whose largest value
/// is `max`: an optional `+`, then one or more ASCII digits.
pub open spec fn parse_uint_spec(s: Seq<char>, max: nat) -> Result<nat, IntErrorKind> {
    if s.len() == 0 {
        Err(IntErrorKind::Empty)
    } else if (s[0] == '+' || s[0] == '-') && s.len() == 1 {
        Err(IntErrorKind::InvalidDigit)
    } else if s[0] == '+' {
        parse_digits_spec(s.drop_first(), max)
    } else {
        parse_digits_spec(s, max)
    }
}

/// Parses the characters `v` as an unsigned integer no larger than `max`.
fn parse_uint(v: &Vec<char>, max: u64) -> (r: Result<u64, IntErrorKind>)
    requires
        max >= 9,
    ensures
        match r {
            Ok(n) => parse_uint_spec(v@, max as nat) == Ok::<nat, IntErrorKind>(n as nat),
            Err(e) => parse_uint_spec(v@, max as nat) == Err::<nat, IntErrorKind>(e),
        },
{
    if v.len() == 0 {
        return Err(IntErrorKind::Empty);
    }
    if (v[0] == '+' || v[0] == '-') && v.len() == 1 {
        return Err(IntErrorKind::InvalidDigit);
    }
    let start: usize = if v[0] == '+' { 1 } else { 0 };
    let ghost ds = if v@[0] == '+' { v@.drop_first() } else { v@ };
    assert(ds =~= v@.skip(start as int));
    let mut acc: u64 = 0;
    let mut i: usize = start;
    assert(ds.take(0) =~= Seq::<char>::empty());
    while i < v.len()
        invariant
            start <= i <= v.len(),
            ds == v@.skip(start as int),
            parse_uint_spec(v@, max as nat) == parse_digits_spec(ds, max as nat),
            acc <= max,
            max >= 9,
            parse_digits_spec(ds.take(i - start), max as nat) == Ok::<nat, IntErrorKind>(acc as nat),
        decreases v.len() - i,
    {
        let c = v[i];
        let ghost t = ds.take(i - start + 1);
        assert(t.drop_last() =~= ds.take(i - start));
        assert(t.last() == c);
        if !('0' <= c && c <= '9') {
            proof { lemma_parse_prefix_err(ds, (i - start + 1) as int, max as nat, IntErrorKind::InvalidDigit); }
            return Err(IntErrorKind::InvalidDigit);
        }
        let d = (c as u32 - '0' as u32) as u64;
        if acc > (max - d) / 10 {
            assert(acc * 10 + d > max) by (nonlinear_arith)
                requires acc > (max - d) / 10, d <= 9, 9 <= max;
            proof { lemma_parse_prefix_err(ds, (i - start + 1) as int, max as nat, IntErrorKind::PosOverflow); }
            return Err(IntErrorKind::PosOverflow);
        }
        assert(acc * 10 + d <= max) by (nonlinear_arith)
            requires acc <= (max - d) / 10, d <= max;
        acc = acc * 10 + d;
        i = i + 1;
    }
    assert(ds.take(i - start) =~= ds);
    Ok(acc)
}

/// Once a prefix of the digits fails, the whole string fails the same way.
proof fn lemma_parse_prefix_err(ds: Seq<char>, k: int, max: nat, e: IntErrorKind)
    requires
        0 <= k <= ds.len(),
        parse_digits_spec(ds.take(k), max) == Err::<nat, IntErrorKind>(e),
    ensures
        parse_digits_spec(ds, max) == Err::<nat, IntErrorKind>(e),
    decreases ds.len() - k,
{
    if k < ds.len() {
        assert(ds.take(k + 1).drop_last() =~= ds.take(k));
        lemma_parse_prefix_err(ds, k + 1, max, e);
    } else {
        assert(ds.take(k) =~= ds);
    }
}

/// `s.parse::<u64>()`.
pub fn parse_u64(s: &str) -> (r: Result<u64, IntErrorKind>)
    ensures
        match r {
            Ok(n) => parse_uint_spec(s@, u64::MAX as nat) == Ok::<nat, IntErrorKind>(n as nat),
            Err(e) => parse_uint_spec(s@, u64::MAX as nat) == Err::<nat, IntErrorKind>(e),
        },
{
    let v = crate::text::chars_of(s);
    parse_uint(&v, u64::MAX)
}

/// `s.parse::<u32>()`.
pub fn parse_u32(s: &str) -> (r: Result<u32, IntErrorKind>)
    ensures
        match r {
            Ok(n) => parse_uint_spec(s@, u32::MAX as nat) == Ok::<nat, IntErrorKind>(n as nat),
            Err(e) => parse_uint_spec(s@, u32::MAX as nat) == Err::<nat, IntErrorKind>(e),
        },
{
    let v = crate::text::chars_of(s);
    match parse_uint(&v, u32::MAX as u64) {
        Ok(n) => Ok(n as u32),
        Err(e) => Err(e),
    }
}

/// `s.parse::<u8>()`.
pub fn parse_u8(s: &str) -> (r: Result<u8, IntErrorKind>)
    ensures
        match r {
            Ok(n) => parse_uint_spec(s@, u8::MAX as nat) == Ok::<nat, IntErrorKind>(n as nat),
            Err(e) => parse_uint_spec(s@, u8::MAX as nat) == Err::<nat, IntErrorKind>(e),
        },
{
    let v = crate::text::chars_of(s);
    match parse_uint(&v, u8::MAX as u64) {
        Ok(n) => Ok(n as u8),
        Err(e) => Err(e),
    }
}

/// The first character of a decimal representation is a digit.
proof fn lemma_decimal_first(n: nat)
    ensures
        decimal_spec(n).len() >= 1,
        is_ascii_digit(decimal_spec(n)[0]),
    decreases n,
{
    if n >= 10 {
        lemma_decimal_first(n / 10);
    }
}

proof fn lemma_parse_decimal_digits(n: nat, max: nat)
    requires
        n <= max,
    ensures
        parse_digits_spec(decimal_spec(n), max) == Ok::<nat, IntErrorKind>(n),
    decreases n,
{
    let s = decimal_spec(n);
    if n < 10 {
        assert(s.drop_last() =~= Seq::<char>::empty());
    } else {
        lemma_parse_decimal_digits(n / 10, max);
        assert(s.drop_last() =~= decimal_spec(n / 10));
        let d = n % 10;
        assert(s.last() == digit_char(d));
        assert(is_ascii_digit(digit_char(d)));
        assert(digit_value(digit_char(d)) == d);
        assert((n / 10) * 10 + d == n);
        assert(parse_digits_spec(s.drop_last(), max) == Ok::<nat, IntErrorKind>(n / 10));
    }
}

/// Parsing what `decimal_string` prints gives the number back, for every
/// number that fits the target type.
pub proof fn lemma_parse_decimal_roundtrip(n: nat, max: nat)
    requires
        n <= max,
    ensures
        parse_uint_spec(decimal_spec(n), max) == Ok::<nat, IntErrorKind>(n),
{
    lemma_decimal_first(n);
    lemma_parse_decimal_digits(n, max);
}

/// A character of Unicode general category `Nd` (decimal number), the class
/// that `\d` denotes in Unicode-aware patterns (Unicode 16.0).
pub open spec fn is_unicode_decimal_digit(c: char) -> bool {
    let u = c as u32;
    ||| 0x30 <= u <= 0x39
    ||| 0x660 <= u <= 0x669
    ||| 0x6f0 <= u <= 0x6f9
    ||| 0x7c0 <= u <= 0x7c9
    ||| 0x966 <= u <= 0x96f
    ||| 0x9e6 <= u <= 0x9ef
    ||| 0xa66 <= u <= 0xa6f
    ||| 0xae6 <= u <= 0xaef
    ||| 0xb66 <= u <= 0xb6f
    ||| 0xbe6 <= u <= 0xbef
    ||| 0xc66 <= u <= 0xc6f
    ||| 0xce6 <= u <= 0xcef
    ||| 0xd66 <= u <= 0xd6f
    ||| 0xde6 <= u <= 0xdef
    ||| 0xe50 <= u <= 0xe59
    ||| 0xed0 <= u <= 0xed9
    ||| 0xf20 <= u <= 0xf29
    ||| 0x1040 <= u <= 0x1049
    ||| 0x1090 <= u <= 0x1099
    ||| 0x17e0 <= u <= 0x17e9
    ||| 0x1810 <= u <= 0x1819
    ||| 0x1946 <= u <= 0x194f
    ||| 0x19d0 <= u <= 0x19d9
    ||| 0x1a80 <= u <= 0x1a89
    ||| 0x1a90 <= u <= 0x1a99
    ||| 0x1b50 <= u <= 0x1b59
    ||| 0x1bb0 <= u <= 0x1bb9
    ||| 0x1c40 <= u <= 0x1c49
    ||| 0x1c50 <= u <= 0x1c59
    ||| 0xa620 <= u <= 0xa629
    ||| 0xa8d0 <= u <= 0xa8d9
    ||| 0xa900 <= u <= 0xa909
    ||| 0xa9d0 <= u <= 0xa9d9
    ||| 0xa9f0 <= u <= 0xa9f9
    ||| 0xaa50 <= u <= 0xaa59
    ||| 0xabf0 <= u <= 0xabf9
    ||| 0xff10 <= u <= 0xff19
    ||| 0x104a0 <= u <= 0x104a9
    ||| 0x10d30 <= u <= 0x10d39
    ||| 0x10d40 <= u <= 0x10d49
    ||| 0x11066 <= u <= 0x1106f
    ||| 0x110f0 <= u <= 0x110f9
    ||| 0x11136 <= u <= 0x1113f
    ||| 0x111d0 <= u <= 0x111d9
    ||| 0x112f0 <= u <= 0x112f9
    ||| 0x11450 <= u <= 0x11459
    ||| 0x114d0 <= u <= 0x114d9
    ||| 0x11650 <= u <= 0x11659
    ||| 0x116c0 <= u <= 0x116c9
    ||| 0x116d0 <= u <= 0x116e3
    ||| 0x11730 <= u <= 0x11739
    ||| 0x118e0 <= u <= 0x118e9
    ||| 0x11950 <= u <= 0x11959
    ||| 0x11bf0 <= u <= 0x11bf9
    ||| 0x11c50 <= u <= 0x11c59
    ||| 0x11d50 <= u <= 0x11d59
    ||| 0x11da0 <= u <= 0x11da9
    ||| 0x11f50 <= u <= 0x11f59
    ||| 0x16130 <= u <= 0x16139
    ||| 0x16a60 <= u <= 0x16a69
    ||| 0x16ac0 <= u <= 0x16ac9
    ||| 0x16b50 <= u <= 0x16b59
    ||| 0x16d70 <= u <= 0x16d79
    ||| 0x1ccf0 <= u <= 0x1ccf9
    ||| 0x1d7ce <= u <= 0x1d7ff
    ||| 0x1e140 <= u <= 0x1e149
    ||| 0x1e2f0 <= u <= 0x1e2f9
    ||| 0x1e4f0 <= u <= 0x1e4f9
    ||| 0x1e5f1 <= u <= 0x1e5fa
    ||| 0x1e950 <= u <= 0x1e959
    ||| 0x1fbf0 <= u <= 0x1fbf9
}

/// Whether `c` is a Unicode decimal digit (`Nd`).
pub fn is_decimal_digit(c: char) -> (r: bool)
    ensures
        r == is_unicode_decimal_digit(c),
{
    let u = c as u32;
    (0x30 <= u && u <= 0x39) || (0x660 <= u && u <= 0x669) || (0x6f0 <= u && u <= 0x6f9)
        || (0x7c0 <= u && u <= 0x7c9) || (0x966 <= u && u <= 0x96f) || (0x9e6 <= u && u <= 0x9ef)
        || (0xa66 <= u && u <= 0xa6f) || (0xae6 <= u && u <= 0xaef) || (0xb66 <= u && u <= 0xb6f)
        || (0xbe6 <= u && u <= 0xbef) || (0xc66 <= u && u <= 0xc6f) || (0xce6 <= u && u <= 0xcef)
        || (0xd66 <= u && u <= 0xd6f) || (0xde6 <= u && u <= 0xdef) || (0xe50 <= u && u <= 0xe59)
        || (0xed0 <= u && u <= 0xed9) || (0xf20 <= u && u <= 0xf29) || (0x1040 <= u && u <= 0x1049)
        || (0x1090 <= u && u <= 0x1099) || (0x17e0 <= u && u <= 0x17e9) || (0x1810 <= u && u <= 0x1819)
        || (0x1946 <= u && u <= 0x194f) || (0x19d0 <= u && u <= 0x19d9) || (0x1a80 <= u && u <= 0x1a89)
        || (0x1a90 <= u && u <= 0x1a99) || (0x1b50 <= u && u <= 0x1b59) || (0x1bb0 <= u && u <= 0x1bb9)
        || (0x1c40 <= u && u <= 0x1c49) || (0x1c50 <= u && u <= 0x1c59) || (0xa620 <= u && u <= 0xa629)
        || (0xa8d0 <= u && u <= 0xa8d9) || (0xa900 <= u && u <= 0xa909) || (0xa9d0 <= u && u <= 0xa9d9)
        || (0xa9f0 <= u && u <= 0xa9f9) || (0xaa50 <= u && u <= 0xaa59) || (0xabf0 <= u && u <= 0xabf9)
        || (0xff10 <= u && u <= 0xff19) || (0x104a0 <= u && u <= 0x104a9) || (0x10d30 <= u && u <= 0x10d39)
        || (0x10d40 <= u && u <= 0x10d49) || (0x11066 <= u && u <= 0x1106f) || (0x110f0 <= u && u <= 0x110f9)
        || (0x11136 <= u && u <= 0x1113f) || (0x111d0 <= u && u <= 0x111d9) || (0x112f0 <= u && u <= 0x112f9)
        || (0x11450 <= u && u <= 0x11459) || (0x114d0 <= u && u <= 0x114d9) || (0x11650 <= u && u <= 0x11659)
        || (0x116c0 <= u && u <= 0x116c9) || (0x116d0 <= u && u <= 0x116e3) || (0x11730 <= u && u <= 0x11739)
        || (0x118e0 <= u && u <= 0x118e9) || (0x11950 <= u && u <= 0x11959) || (0x11bf0 <= u && u <= 0x11bf9)
        || (0x11c50 <= u && u <= 0x11c59) || (0x11d50 <= u && u <= 0x11d59) || (0x11da0 <= u && u <= 0x11da9)
        || (0x11f50 <= u && u <= 0x11f59) || (0x16130 <= u && u <= 0x16139) || (0x16a60 <= u && u <= 0x16a69)
        || (0x16ac0 <= u && u <= 0x16ac9) || (0x16b50 <= u && u <= 0x16b59) || (0x16d70 <= u && u <= 0x16d79)
        || (0x1ccf0 <= u && u <= 0x1ccf9) || (0x1d7ce <= u && u <= 0x1d7ff) || (0x1e140 <= u && u <= 0x1e149)
        || (0x1e2f0 <= u && u <= 0x1e2f9) || (0x1e4f0 <= u && u <= 0x1e4f9) || (0x1e5f1 <= u && u <= 0x1e5fa)
        || (0x1e950 <= u && u <= 0x1e959) || (0x1fbf0 <= u && u <= 0x1fbf9)
}

} // verus!
