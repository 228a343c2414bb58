//! The two checks on what a user types: the shape of an email address and
//! the length of a password.

use crate::error::StoreError;
use regex::Regex;
use vstd::prelude::*;
use vstd::utf8::encode_utf8;

verus! {

/// The fewest bytes a password may have.
pub const MIN_PASSWORD_LENGTH: usize = 8;

/// What the `regex` crate makes of a pattern and a text: `None` where it
/// does not accept the pattern, else whether the pattern matches somewhere
/// in the text.
pub uninterp spec fn pattern_match(pattern: Seq<char>, text: Seq<char>) -> Option<bool>;

/// The pattern an email address is held against: a local part of letters,
/// digits and `._%+-`, an `@`, a domain of letters, digits, dots and hyphens,
/// a dot, and a last label of two letters or more.
pub open spec fn email_pattern() -> Seq<char> {
    "^[a-zA-Z0-9._%+-]+@[a-zA-Z0-9.-]+\\.[a-zA-Z]{2,}$"@
}

/// Whether `email` has the shape of an address.
pub open spec fn is_valid_email(email: Seq<char>) -> bool {
    pattern_match(email_pattern(), email) == Some(true)
}

/// Whether `password` is long enough, counted in the bytes of its UTF-8 form.
pub open spec fn is_valid_password(password: Seq<char>) -> bool {
    encode_utf8(password).len() >= MIN_PASSWORD_LENGTH
}

/// Compiles `pattern` with `regex::Regex::new` and, where that succeeds,
/// asks `Regex::is_match` about `text`.
///
/// The outcome depends on the two strings alone, which is all the contract
/// says: it gives the outcome its name.
#[verifier::external_body]
fn matches_pattern(pattern: &str, text: &str) -> (outcome: Option<bool>)
    ensures
        outcome == pattern_match(pattern@, text@),
{
    match Regex::new(pattern) {
        Ok(compiled) => Some(compiled.is_match(text)),
        Err(_) => None,
    }
}

/// What follows from matching an email against the pattern: only a match
/// lets the email pass.
pub fn email_outcome(matched: Option<bool>) -> (outcome: Result<(), StoreError>)
    ensures
        outcome == if matched == Some(true) {
            Ok::<(), StoreError>(())
        } else {
            Err::<(), StoreError>(StoreError::InvalidEmail)
        },
{
    match matched {
        Some(true) => Ok(()),
        _ => Err(StoreError::InvalidEmail),
    }
}

/// Accepts `email` if it has the shape of an address.
pub fn validate_email(email: &str) -> (outcome: Result<(), StoreError>)
    ensures
        outcome == if is_valid_email(email@) {
            Ok::<(), StoreError>(())
        } else {
            Err::<(), StoreError>(StoreError::InvalidEmail)
        },
{
    email_outcome(matches_pattern("^[a-zA-Z0-9._%+-]+@[a-zA-Z0-9.-]+\\.[a-zA-Z]{2,}$", email))
}

/// Accepts `password` if it has at least [`MIN_PASSWORD_LENGTH`] bytes.
pub fn validate_password(password: &str) -> (outcome: Result<(), StoreError>)
    ensures
        outcome == if is_valid_password(password@) {
            Ok::<(), StoreError>(())
        } else {
            Err::<(), StoreError>(StoreError::WeakPassword)
        },
{
    if password.as_bytes().len() < MIN_PASSWORD_LENGTH {
        return Err(StoreError::WeakPassword);
    }
    Ok(())
}

} // verus!
