//! The password policy for new accounts.

use vstd::prelude::*;

use crate::text::{decimal, int_to_string, is_decimal_digit};

verus! {

/// The fewest characters a password may have.
pub const MIN_PASSWORD_LEN: usize = 8;

/// The most characters a password may have.
pub const MAX_PASSWORD_LEN: usize = 128;

/// Why a password was refused.
#[derive(Debug, Clone, Copy, PartialEq, Eq, Structural)]
#[non_exhaustive]
pub enum PasswordError {
    InvalidLength { min: usize, max: usize },
    MissingUppercase,
    MissingLowercase,
    MissingDigit,
    TooWeak,
}

/// The displayed text of a password error.
pub open spec fn password_error_text(e: PasswordError) -> Seq<char> {
    match e {
        PasswordError::InvalidLength { min, max } => "Password length must be between "@ + decimal(
            min as int,
        ) + " and "@ + decimal(max as int) + " characters"@,
        PasswordError::MissingUppercase => "Password must contain at least one uppercase letter"@,
        PasswordError::MissingLowercase => "Password must contain at least one lowercase letter"@,
        PasswordError::MissingDigit => "Password must contain at least one digit"@,
        PasswordError::TooWeak => "Password is too weak"@,
    }
}

impl PasswordError {
    /// The displayed text of this error.
    pub fn to_string(&self) -> (s: String)
        ensures
            s@ == password_error_text(*self),
    {
        match self {
            PasswordError::InvalidLength { min, max } => {
                let mut s = String::from_str("Password length must be between ");
                s.append(int_to_string(*min as i128).as_str());
                s.append(" and ");
                s.append(int_to_string(*max as i128).as_str());
                s.append(" characters");
                s
            },
            PasswordError::MissingUppercase => String::from_str(
                "Password must contain at least one uppercase letter",
            ),
            PasswordError::MissingLowercase => String::from_str(
                "Password must contain at least one lowercase letter",
            ),
            PasswordError::MissingDigit => String::from_str("Password must contain at least one digit"),
            PasswordError::TooWeak => String::from_str("Password is too weak"),
        }
    }
}

/// Whether `c` has the Unicode `Uppercase` property, as `char::is_uppercase`
/// reports it.
pub uninterp spec fn unicode_uppercase(c: char) -> bool;

/// Whether `c` has the Unicode `Lowercase` property, as `char::is_lowercase`
/// reports it.
pub uninterp spec fn unicode_lowercase(c: char) -> bool;

/// `char::is_uppercase`: whether `c` has the Unicode `Uppercase` property.
/// The contract only names that property; the Unicode tables behind it are
/// not restated.
#[verifier::external_body]
fn is_uppercase(c: char) -> (b: bool)
    ensures
        b == unicode_uppercase(c),
{
    c.is_uppercase()
}

/// `char::is_lowercase`: whether `c` has the Unicode `Lowercase` property.
/// The contract only names that property; the Unicode tables behind it are
/// not restated.
#[verifier::external_body]
fn is_lowercase(c: char) -> (b: bool)
    ensures
        b == unicode_lowercase(c),
{
    c.is_lowercase()
}

/// Whether some character of `s` is uppercase.
pub open spec fn has_uppercase(s: Seq<char>) -> bool {
    exists|i: int| 0 <= i < s.len() && #[trigger] unicode_uppercase(s[i])
}

/// Whether some character of `s` is lowercase.
pub open spec fn has_lowercase(s: Seq<char>) -> bool {
    exists|i: int| 0 <= i < s.len() && #[trigger] unicode_lowercase(s[i])
}

/// Whether some character of `s` is an ASCII digit.
pub open spec fn has_digit(s: Seq<char>) -> bool {
    exists|i: int| 0 <= i < s.len() && #[trigger] is_decimal_digit(s[i])
}

/// The first rule of the policy that `password` breaks, if any: a length
/// of `MIN_PASSWORD_LEN..=MAX_PASSWORD_LEN` characters, then an uppercase
/// letter, a lowercase letter and an ASCII digit.
pub open spec fn password_verdict(password: &str) -> Result<(), PasswordError> {
    let len = password@.len();
    if !(MIN_PASSWORD_LEN <= len <= MAX_PASSWORD_LEN) {
        Err(PasswordError::InvalidLength { min: MIN_PASSWORD_LEN, max: MAX_PASSWORD_LEN })
    } else if !has_uppercase(password@) {
        Err(PasswordError::MissingUppercase)
    } else if !has_lowercase(password@) {
        Err(PasswordError::MissingLowercase)
    } else if !has_digit(password@) {
        Err(PasswordError::MissingDigit)
    } else {
        Ok(())
    }
}

/// Checks `password` against the policy and reports the first rule it
/// breaks.
pub fn validate_password(password: &str) -> (r: Result<(), PasswordError>)
    ensures
        r == password_verdict(password),
{
    let n = password.unicode_len();
    if !(MIN_PASSWORD_LEN <= n && n <= MAX_PASSWORD_LEN) {
        return Err(PasswordError::InvalidLength { min: MIN_PASSWORD_LEN, max: MAX_PASSWORD_LEN });
    }
    let mut has_upper = false;
    let mut has_lower = false;
    let mut has_dig = false;
    let mut i: usize = 0;
    while i < n
        invariant
            n == password@.len(),
            i <= n,
            has_upper == exists|j: int| 0 <= j < i && #[trigger] unicode_uppercase(password@[j]),
            has_lower == exists|j: int| 0 <= j < i && #[trigger] unicode_lowercase(password@[j]),
            has_dig == exists|j: int| 0 <= j < i && #[trigger] is_decimal_digit(password@[j]),
        decreases n - i,
    {
        let c = password.get_char(i);
        let code: u32 = c as u32;
        proof {
            assert(is_decimal_digit(password@[i as int]) == (48 <= code && code <= 57));
        }
        if is_uppercase(c) {
            has_upper = true;
        }
        if is_lowercase(c) {
            has_lower = true;
        }
        if 48 <= code && code <= 57 {
            has_dig = true;
        }
        i = i + 1;
    }
    if !has_upper {
        return Err(PasswordError::MissingUppercase);
    }
    if !has_lower {
        return Err(PasswordError::MissingLowercase);
    }
    if !has_dig {
        return Err(PasswordError::MissingDigit);
    }
    Ok(())
}

} // verus!
