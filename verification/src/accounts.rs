//! The rules around stored player accounts: usernames, passwords and their
//! hashes, and the checks made on what the database returns.
//!
//! The database itself is driven by the application; these functions take
//! and give plain values.

use argon2::password_hash::{PasswordHash, PasswordHasher, PasswordVerifier, SaltString};
use argon2::Argon2;
use rand::rngs::OsRng;
use vstd::prelude::*;

use crate::error::{ErrorView, PokerError};
use crate::models::game::{MAX_USERNAME_LEN, MIN_USERNAME_LEN};
use crate::models::player::Player;
use crate::password_policy::{password_error_text, password_verdict, validate_password};
use crate::text::{decimal, int_to_string};

verus! {

/// Whether `c` has the Unicode `Alphabetic` property, as `char::is_alphabetic`
/// reports it.
pub uninterp spec fn unicode_alphabetic(c: char) -> bool;

/// Whether `c` is alphabetic or numeric in Unicode's sense, as
/// `char::is_alphanumeric` reports it.
pub uninterp spec fn unicode_alphanumeric(c: char) -> bool;

/// Whether `c` is in Unicode's control-code category (Cc), as
/// `char::is_control` reports it: U+0000..=U+001F and U+007F..=U+009F.
pub open spec fn unicode_control(c: char) -> bool {
    (c as u32) <= 0x1F || (0x7F <= (c as u32) <= 0x9F)
}

/// `char::is_alphabetic`. The contract names the property; the Unicode tables
/// behind it are not restated.
#[verifier::external_body]
fn is_alphabetic(c: char) -> (b: bool)
    ensures
        b == unicode_alphabetic(c),
{
    c.is_alphabetic()
}

/// `char::is_alphanumeric`. The contract names the property; the Unicode
/// tables behind it are not restated.
#[verifier::external_body]
fn is_alphanumeric(c: char) -> (b: bool)
    ensures
        b == unicode_alphanumeric(c),
{
    c.is_alphanumeric()
}

/// Whether `c` is a control character (general category Cc).
fn is_control(c: char) -> (b: bool)
    ensures
        b == unicode_control(c),
{
    let code: u32 = c as u32;
    code <= 0x1F || (0x7F <= code && code <= 0x9F)
}

/// Zero-width and bidirectional formatting characters, which a username may
/// not hold: U+200B..=U+200F and U+202A..=U+202E.
pub open spec fn is_invisible_format_char(c: char) -> bool {
    (0x200B <= (c as u32) <= 0x200F) || (0x202A <= (c as u32) <= 0x202E)
}

/// A character a username may not hold even where it is alphanumeric.
pub open spec fn is_forbidden_username_char(c: char) -> bool {
    unicode_control(c) || is_invisible_format_char(c)
}

/// The text of the error for a username of the wrong length.
pub open spec fn username_length_message() -> Seq<char> {
    "Username must be between "@ + decimal(MIN_USERNAME_LEN as int) + " and "@ + decimal(
        MAX_USERNAME_LEN as int,
    ) + " characters"@
}

/// The username rules, checked in order: `MIN_USERNAME_LEN..=MAX_USERNAME_LEN`
/// characters, a letter first, only letters, digits and underscores, and no
/// control or invisible formatting characters.
pub open spec fn username_verdict(username: &str) -> Result<(), ErrorView> {
    let s = username@;
    if s.len() < MIN_USERNAME_LEN || s.len() > MAX_USERNAME_LEN {
        Err(ErrorView::Game(username_length_message()))
    } else if !(s.len() > 0 && unicode_alphabetic(s[0])) {
        Err(ErrorView::Game("Username must start with a letter"@))
    } else if !(forall|i: int|
        0 <= i < s.len() ==> #[trigger] unicode_alphanumeric(s[i]) || s[i] == '_') {
        Err(ErrorView::Game("Username can only contain letters, numbers, and underscores"@))
    } else if exists|i: int| 0 <= i < s.len() && #[trigger] is_forbidden_username_char(s[i]) {
        Err(ErrorView::Game("Username contains invalid characters"@))
    } else {
        Ok(())
    }
}

/// The view of a check's result.
pub open spec fn check_view(r: Result<(), PokerError>) -> Result<(), ErrorView> {
    match r {
        Ok(_) => Ok(()),
        Err(e) => Err(e@),
    }
}

/// Checks a username against the account rules.
pub fn validate_username(username: &str) -> (r: Result<(), PokerError>)
    ensures
        check_view(r) == username_verdict(username),
{
    let n = username.unicode_len();
    if n < MIN_USERNAME_LEN || n > MAX_USERNAME_LEN {
        let mut message = String::from_str("Username must be between ");
        message.append(int_to_string(MIN_USERNAME_LEN as i128).as_str());
        message.append(" and ");
        message.append(int_to_string(MAX_USERNAME_LEN as i128).as_str());
        message.append(" characters");
        return Err(PokerError::game(message));
    }
    if n == 0 || !is_alphabetic(username.get_char(0)) {
        return Err(PokerError::game(String::from_str("Username must start with a letter")));
    }
    let mut i: usize = 0;
    while i < n
        invariant
            n == username@.len(),
            i <= n,
            MIN_USERNAME_LEN <= username@.len() <= MAX_USERNAME_LEN,
            n > 0 && unicode_alphabetic(username@[0]),
            forall|j: int|
                0 <= j < i ==> #[trigger] unicode_alphanumeric(username@[j]) || username@[j]
                    == '_',
        decreases n - i,
    {
        let c = username.get_char(i);
        if !(is_alphanumeric(c) || c == '_') {
            proof {
                assert(!(unicode_alphanumeric(username@[i as int]) || username@[i as int] == '_'));
            }
            return Err(
                PokerError::game(
                    String::from_str("Username can only contain letters, numbers, and underscores"),
                ),
            );
        }
        i = i + 1;
    }
    let mut k: usize = 0;
    while k < n
        invariant
            n == username@.len(),
            k <= n,
            MIN_USERNAME_LEN <= username@.len() <= MAX_USERNAME_LEN,
            n > 0 && unicode_alphabetic(username@[0]),
            forall|j: int|
                0 <= j < n ==> #[trigger] unicode_alphanumeric(username@[j]) || username@[j]
                    == '_',
            forall|j: int| 0 <= j < k ==> !#[trigger] is_forbidden_username_char(username@[j]),
        decreases n - k,
    {
        let c = username.get_char(k);
        let code: u32 = c as u32;
        if is_control(c) || (0x200B <= code && code <= 0x200F) || (0x202A <= code && code <= 0x202E) {
            proof {
                assert(is_forbidden_username_char(username@[k as int]));
            }
            return Err(PokerError::game(String::from_str("Username contains invalid characters")));
        }
        k = k + 1;
    }
    Ok(())
}

/// The rules a new account's username and password must meet, in order:
/// the username rules, then the password policy.
pub open spec fn new_account_verdict(username: &str, password: &str) -> Result<(), ErrorView> {
    match username_verdict(username) {
        Err(e) => Err(e),
        Ok(_) => match password_verdict(password) {
            Err(e) => Err(
                ErrorView::Game("Password validation failed: "@ + password_error_text(e)),
            ),
            Ok(_) => Ok(()),
        },
    }
}

/// Checks the username and password of a new account.
pub fn check_new_account(username: &str, password: &str) -> (r: Result<(), PokerError>)
    ensures
        check_view(r) == new_account_verdict(username, password),
{
    validate_username(username)?;
    match validate_password(password) {
        Ok(()) => Ok(()),
        Err(e) => {
            let mut message = String::from_str("Password validation failed: ");
            message.append(e.to_string().as_str());
            Err(PokerError::game(message))
        },
    }
}

/// `h` is an Argon2 hash of `password`: a PHC string of Argon2id version 19
/// that the verifier accepts for `password`.
pub open spec fn is_hash_of(password: Seq<char>, h: Seq<char>) -> bool {
    &&& "$argon2id$v=19$"@.is_prefix_of(h)
    &&& argon2_verdict(password, h) == Ok::<bool, Seq<char>>(true)
}

/// Hashes `password` with Argon2 (its default parameters) under a fresh
/// salt drawn from the operating system's generator
/// (`SaltString::generate(&mut OsRng)`, then
/// `PasswordHasher::hash_password`), giving the PHC string or the hasher's
/// error text. The crate's documentation shows that the string is an
/// Argon2id version 19 PHC string and that verifying the same password
/// against it succeeds; its source shows that, with the default parameters
/// and a generated salt, hashing fails exactly for a password longer than
/// `MAX_PWD_LEN` (`0xFFFF_FFFF`) bytes. The salt, and so the rest of the
/// string, is left to chance, and the error's text is not stated.
#[verifier::external_body]
fn argon2_hash(password: &str) -> (r: Result<String, String>)
    ensures
        r is Ok <==> password.len() <= 0xFFFF_FFFF,
        r matches Ok(h) ==> is_hash_of(password@, h@),
{
    let salt = SaltString::generate(&mut OsRng);
    match Argon2::default().hash_password(password.as_bytes(), &salt) {
        Ok(hash) => Ok(hash.to_string()),
        Err(e) => Err(e.to_string()),
    }
}

/// What hashing gave: the PHC string, or a hashing error carrying the
/// hasher's text.
pub fn hash_outcome(hashed: Result<String, String>) -> (r: Result<String, PokerError>)
    ensures
        match hashed {
            Ok(h) => r matches Ok(s) && s@ == h@,
            Err(m) => r matches Err(e) && e@ == ErrorView::PasswordHash(m@),
        },
{
    match hashed {
        Ok(h) => Ok(h),
        Err(m) => Err(PokerError::password_hash(m)),
    }
}

/// Hashes a password with Argon2 under a random salt.
///
/// A hash is an Argon2id PHC string that verifies against `password`; the
/// salt in it is drawn at random. Hashing succeeds for every password of at
/// most `0xFFFF_FFFF` bytes; a longer one is a `PasswordHash` error.
pub fn hash_password(password: &str) -> (r: Result<String, PokerError>)
    ensures
        r is Ok <==> password.len() <= 0xFFFF_FFFF,
        r matches Ok(h) ==> is_hash_of(password@, h@),
        r matches Err(e) ==> e@ is PasswordHash,
{
    hash_outcome(argon2_hash(password))
}

/// Checks a new account and hashes its password: the error of the first
/// rule broken, else the hash.
pub fn prepare_new_account(username: &str, password: &str) -> (r: Result<String, PokerError>)
    ensures
        new_account_verdict(username, password) matches Err(e) ==> (r matches Err(pe) && pe@ == e),
        new_account_verdict(username, password) is Ok ==> (r matches Err(pe) ==> pe@ is PasswordHash),
        r is Ok <==> new_account_verdict(username, password) is Ok && password.len() <= 0xFFFF_FFFF,
        r matches Ok(h) ==> new_account_verdict(username, password) is Ok && is_hash_of(
            password@,
            h@,
        ),
{
    check_new_account(username, password)?;
    hash_password(password)
}

/// The error for a failed insertion of a new account: a taken username
/// where the database reported a uniqueness violation, else the database's
/// error text.
pub fn account_insert_error(username: &str, unique_violation: bool, error_text: &str) -> (e:
    PokerError)
    ensures
        unique_violation ==> e@ == ErrorView::Game(
            "Username '"@ + username@ + "' is already taken"@,
        ),
        !unique_violation ==> e@ == ErrorView::Game("Failed to create player: "@ + error_text@),
{
    if unique_violation {
        let mut message = String::from_str("Username '");
        message.append(username);
        message.append("' is already taken");
        PokerError::game(message)
    } else {
        let mut message = String::from_str("Failed to create player: ");
        message.append(error_text);
        PokerError::game(message)
    }
}

/// The view of a player lookup's result.
pub open spec fn lookup_view(r: Result<Option<Player>, PokerError>) -> Result<
    Option<Player>,
    ErrorView,
> {
    match r {
        Ok(p) => Ok(p),
        Err(e) => Err(e@),
    }
}

/// Checks a player row found under `username`: a stored negative stack is
/// reported as corrupt data.
pub fn check_player_by_username(username: &str, row: Option<Player>) -> (r: Result<
    Option<Player>,
    PokerError,
>)
    ensures
        lookup_view(r) == match row {
            Some(p) => if p.chips < 0 {
                Err(
                    ErrorView::Game(
                        "Data corruption: player '"@ + username@ + "' has negative chips: "@
                            + decimal(p.chips as int),
                    ),
                )
            } else {
                Ok(Some(p))
            },
            None => Ok(None),
        },
{
    if let Some(p) = &row {
        if p.chips < 0 {
            let mut message = String::from_str("Data corruption: player '");
            message.append(username);
            message.append("' has negative chips: ");
            message.append(int_to_string(p.chips as i128).as_str());
            return Err(PokerError::game(message));
        }
    }
    Ok(row)
}

/// Checks a player row found under `player_id`: a stored negative stack is
/// reported as corrupt data.
pub fn check_player_by_id(player_id: i64, row: Option<Player>) -> (r: Result<
    Option<Player>,
    PokerError,
>)
    ensures
        lookup_view(r) == match row {
            Some(p) => if p.chips < 0 {
                Err(
                    ErrorView::Game(
                        "Data corruption: player ID "@ + decimal(player_id as int)
                            + " has negative chips: "@ + decimal(p.chips as int),
                    ),
                )
            } else {
                Ok(Some(p))
            },
            None => Ok(None),
        },
{
    if let Some(p) = &row {
        if p.chips < 0 {
            let mut message = String::from_str("Data corruption: player ID ");
            message.append(int_to_string(player_id as i128).as_str());
            message.append(" has negative chips: ");
            message.append(int_to_string(p.chips as i128).as_str());
            return Err(PokerError::game(message));
        }
    }
    Ok(row)
}

/// The outcome of a guarded chip update (one that only applies where the
/// new stack stays non-negative): no row changed means the player was
/// missing or short of chips.
pub fn chip_update_outcome(rows_affected: u64) -> (r: Result<(), PokerError>)
    ensures
        rows_affected == 0 ==> (r matches Err(e) && e@ == ErrorView::Game(
            "Insufficient chips or player not found"@,
        )),
        rows_affected != 0 ==> r is Ok,
{
    if rows_affected == 0 {
        Err(PokerError::game(String::from_str("Insufficient chips or player not found")))
    } else {
        Ok(())
    }
}

/// Statistics only grow: both deltas must be non-negative.
pub fn check_stat_deltas(hands_played_delta: i64, hands_won_delta: i64) -> (r: Result<
    (),
    PokerError,
>)
    ensures
        (hands_played_delta < 0 || hands_won_delta < 0) ==> (r matches Err(e) && e@
            == ErrorView::Game("Stat deltas cannot be negative"@)),
        (hands_played_delta >= 0 && hands_won_delta >= 0) ==> r is Ok,
{
    if hands_played_delta < 0 || hands_won_delta < 0 {
        Err(PokerError::game(String::from_str("Stat deltas cannot be negative")))
    } else {
        Ok(())
    }
}

/// What verifying `password` against the PHC string `phc` gives:
/// `Ok(true)` where Argon2 accepts it, `Ok(false)` where it does not, and
/// the parser's error text where `phc` is not a well-formed PHC string.
pub uninterp spec fn argon2_verdict(password: Seq<char>, phc: Seq<char>) -> Result<bool, Seq<char>>;

/// Parses the PHC string `phc` (`PasswordHash::new`) and verifies `password`
/// against it with Argon2 (`PasswordVerifier::verify_password`). The result
/// is a function of the two texts, named by `argon2_verdict`; what Argon2
/// computes is not restated.
#[verifier::external_body]
fn argon2_verify(password: &str, phc: &str) -> (r: Result<bool, String>)
    ensures
        match r {
            Ok(b) => argon2_verdict(password@, phc@) == Ok::<bool, Seq<char>>(b),
            Err(m) => argon2_verdict(password@, phc@) == Err::<bool, Seq<char>>(m@),
        },
{
    match PasswordHash::new(phc) {
        Ok(parsed) => Ok(Argon2::default().verify_password(password.as_bytes(), &parsed).is_ok()),
        Err(e) => Err(e.to_string()),
    }
}

/// The answer to a password check of `player`: the player on a match,
/// `None` on a mismatch, and an authentication error for a malformed
/// stored hash.
pub fn password_check_outcome(player: Player, verdict: Result<bool, String>) -> (r: Result<
    Option<Player>,
    PokerError,
>)
    ensures
        match verdict {
            Ok(true) => r == Ok::<Option<Player>, PokerError>(Some(player)),
            Ok(false) => r matches Ok(None),
            Err(m) => r matches Err(e) && e@ == ErrorView::Auth(
                "Invalid password hash format: "@ + m@,
            ),
        },
{
    match verdict {
        Ok(true) => Ok(Some(player)),
        Ok(false) => Ok(None),
        Err(m) => {
            let mut reason = String::from_str("Invalid password hash format: ");
            reason.append(m.as_str());
            Err(PokerError::auth(reason))
        },
    }
}

/// Checks `password` against the stored hash of `player`.
pub fn check_password(player: Player, password: &str) -> (r: Result<Option<Player>, PokerError>)
    ensures
        match argon2_verdict(password@, player.password_hash@) {
            Ok(true) => r == Ok::<Option<Player>, PokerError>(Some(player)),
            Ok(false) => r matches Ok(None),
            Err(m) => r matches Err(e) && e@ == ErrorView::Auth(
                "Invalid password hash format: "@ + m,
            ),
        },
{
    let verdict = argon2_verify(password, player.password_hash.as_str());
    password_check_outcome(player, verdict)
}

} // verus!
