//! Decimal text of integers: writing them in the library's messages and
//! reading them from configuration values.

use vstd::prelude::*;

verus! {

/// The character of a decimal digit `d` (0..=9).
pub open spec fn digit_char(d: nat) -> char {
    if d == 0 {
        '0'
    } else if d == 1 {
        '1'
    } else if d == 2 {
        '2'
    } else if d == 3 {
        '3'
    } else if d == 4 {
        '4'
    } else if d == 5 {
        '5'
    } else if d == 6 {
        '6'
    } else if d == 7 {
        '7'
    } else if d == 8 {
        '8'
    } else {
        '9'
    }
}

/// The decimal digits of a natural number, most significant first, with no
/// leading zeros ("0" for zero).
pub open spec fn nat_digits(n: nat) -> Seq<char>
    decreases n,
{
    if n < 10 {
        seq![digit_char(n)]
    } else {
        nat_digits(n / 10).push(digit_char(n % 10))
    }
}

/// The decimal text of an integer: a '-' before the digits of a negative number.
pub open spec fn decimal(n: int) -> Seq<char> {
    if n < 0 {
        seq!['-'] + nat_digits((-n) as nat)
    } else {
        nat_digits(n as nat)
    }
}

/// The decimal text of an integer, as `Display` for `i128` writes it
/// (`ToString::to_string`): an optional '-' then the digits with no leading
/// zeros.
#[verifier::external_body]
pub(crate) fn int_to_string(n: i128) -> (s: String)
    ensures
        s@ == decimal(n as int),
{
    n.to_string()
}

/// Why a decimal integer could not be read, as `std` classifies it for
/// `str::parse` on its integer types.
#[derive(Debug, Clone, Copy, PartialEq, Eq, Structural)]
pub enum IntErrorKind {
    Empty,
    InvalidDigit,
    PosOverflow,
    NegOverflow,
}

/// The text that `std` displays for each kind of integer parse error.
pub open spec fn int_error_text(kind: IntErrorKind) -> Seq<char> {
    match kind {
        IntErrorKind::Empty => "cannot parse integer from empty string"@,
        IntErrorKind::InvalidDigit => "invalid digit found in string"@,
        IntErrorKind::PosOverflow => "number too large to fit in target type"@,
        IntErrorKind::NegOverflow => "number too small to fit in target type"@,
    }
}

impl IntErrorKind {
    /// The displayed text of this error.
    pub fn description(&self) -> (s: String)
        ensures
            s@ == int_error_text(*self),
    {
        match self {
            IntErrorKind::Empty => String::from_str("cannot parse integer from empty string"),
            IntErrorKind::InvalidDigit => String::from_str("invalid digit found in string"),
            IntErrorKind::PosOverflow => String::from_str("number too large to fit in target type"),
            IntErrorKind::NegOverflow => String::from_str("number too small to fit in target type"),
        }
    }
}

/// Whether `c` is an ASCII decimal digit.
pub open spec fn is_decimal_digit(c: char) -> bool {
    48 <= (c as u32) <= 57
}

/// The value of the ASCII decimal digit `c`.
pub open spec fn decimal_digit_value(c: char) -> int {
    (c as u32) - 48
}

/// Reads the digits `ds` from left to right onto `acc` (subtracting each
/// digit when `negative`), stopping at the first character that is not a
/// digit or the first step that leaves `lo..=hi`.
pub open spec fn fold_digits(ds: Seq<char>, acc: int, negative: bool, lo: int, hi: int) -> Result<
    int,
    IntErrorKind,
>
    decreases ds.len(),
{
    if ds.len() == 0 {
        Ok(acc)
    } else if !is_decimal_digit(ds[0]) {
        Err(IntErrorKind::InvalidDigit)
    } else {
        let next = if negative {
            acc * 10 - decimal_digit_value(ds[0])
        } else {
            acc * 10 + decimal_digit_value(ds[0])
        };
        if next > hi {
            Err(IntErrorKind::PosOverflow)
        } else if next < lo {
            Err(IntErrorKind::NegOverflow)
        } else {
            fold_digits(ds.drop_first(), next, negative, lo, hi)
        }
    }
}

/// What `str::parse` gives for `s` on an integer type whose values are
/// `lo..=hi`: an optional sign (`-` only where `lo` is negative), then
/// decimal digits, nothing else, and a value within the type.
pub open spec fn parse_int_spec(s: Seq<char>, lo: int, hi: int) -> Result<int, IntErrorKind> {
    if s.len() == 0 {
        Err(IntErrorKind::Empty)
    } else if (s[0] == '+' || s[0] == '-') && s.len() == 1 {
        Err(IntErrorKind::InvalidDigit)
    } else if s[0] == '+' {
        fold_digits(s.drop_first(), 0, false, lo, hi)
    } else if s[0] == '-' && lo < 0 {
        fold_digits(s.drop_first(), 0, true, lo, hi)
    } else {
        fold_digits(s, 0, false, lo, hi)
    }
}

/// A parse result with its value taken as a mathematical integer.
pub open spec fn widen(r: Result<i128, IntErrorKind>) -> Result<int, IntErrorKind> {
    match r {
        Ok(v) => Ok(v as int),
        Err(k) => Err(k),
    }
}

/// The value of an ASCII digit character, or `None` for any other one.
fn digit_of(c: char) -> (d: Option<i128>)
    ensures
        d is Some <==> is_decimal_digit(c),
        d matches Some(v) ==> v == decimal_digit_value(c),
{
    let code: u32 = c as u32;
    if 48 <= code && code <= 57 {
        Some((code - 48) as i128)
    } else {
        None
    }
}

/// Reads a decimal integer of a type whose values are `lo..=hi`, as
/// `str::parse` does for Rust's integer types.
pub fn parse_int(s: &str, lo: i128, hi: i128) -> (r: Result<i128, IntErrorKind>)
    requires
        i64::MIN <= lo <= 0,
        0 <= hi <= u64::MAX,
    ensures
        widen(r) == parse_int_spec(s@, lo as int, hi as int),
        r matches Ok(v) ==> lo <= v <= hi,
{
    let n = s.unicode_len();
    if n == 0 {
        return Err(IntErrorKind::Empty);
    }
    let first = s.get_char(0);
    if (first == '+' || first == '-') && n == 1 {
        return Err(IntErrorKind::InvalidDigit);
    }
    let negative = first == '-' && lo < 0;
    let start: usize = if first == '+' || negative { 1 } else { 0 };
    proof {
        assert(s@.drop_first() =~= s@.subrange(1, n as int));
        assert(s@ =~= s@.subrange(0, n as int));
    }
    let mut acc: i128 = 0;
    let mut i: usize = start;
    while i < n
        invariant
            n == s@.len(),
            start <= i <= n,
            i64::MIN <= lo <= 0,
            0 <= hi <= u64::MAX,
            lo <= acc <= hi,
            parse_int_spec(s@, lo as int, hi as int) == fold_digits(
                s@.subrange(i as int, n as int),
                acc as int,
                negative,
                lo as int,
                hi as int,
            ),
        decreases n - i,
    {
        let c = s.get_char(i);
        let ghost rest = s@.subrange(i as int, n as int);
        proof {
            assert(rest[0] == c);
            assert(rest.drop_first() =~= s@.subrange(i + 1, n as int));
        }
        match digit_of(c) {
            None => {
                return Err(IntErrorKind::InvalidDigit);
            },
            Some(d) => {
                let next: i128 = if negative {
                    acc * 10 - d
                } else {
                    acc * 10 + d
                };
                if next > hi {
                    return Err(IntErrorKind::PosOverflow);
                }
                if next < lo {
                    return Err(IntErrorKind::NegOverflow);
                }
                acc = next;
            },
        }
        i = i + 1;
    }
    proof {
        assert(s@.subrange(n as int, n as int).len() == 0);
    }
    Ok(acc)
}

} // verus!
