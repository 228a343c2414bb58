use campus_store::error::StoreError;
use campus_store::pattern::{email_outcome, validate_email, validate_password};

#[test]
fn email_with_two_letter_domain_is_valid() {
    assert_eq!(validate_email("a@b.co"), Ok(()));
}

#[test]
fn email_without_top_level_label_is_invalid() {
    assert_eq!(validate_email("a@b"), Err(StoreError::InvalidEmail));
}

#[test]
fn email_without_at_sign_is_invalid() {
    assert_eq!(validate_email("abc"), Err(StoreError::InvalidEmail));
}

#[test]
fn email_with_one_letter_top_level_label_is_invalid() {
    assert_eq!(validate_email("a@b.c"), Err(StoreError::InvalidEmail));
}

#[test]
fn email_with_digits_in_top_level_label_is_invalid() {
    assert_eq!(validate_email("a@b.c0m"), Err(StoreError::InvalidEmail));
}

#[test]
fn email_with_empty_local_part_is_invalid() {
    assert_eq!(validate_email("@b.co"), Err(StoreError::InvalidEmail));
}

#[test]
fn email_with_empty_domain_is_invalid() {
    assert_eq!(validate_email("a@.co"), Err(StoreError::InvalidEmail));
}

#[test]
fn email_with_two_at_signs_is_invalid() {
    assert_eq!(validate_email("a@b@c.co"), Err(StoreError::InvalidEmail));
}

#[test]
fn email_with_space_is_invalid() {
    assert_eq!(validate_email("a b@c.co"), Err(StoreError::InvalidEmail));
}

#[test]
fn email_followed_by_newline_is_invalid() {
    assert_eq!(validate_email("a@b.co\n"), Err(StoreError::InvalidEmail));
}

#[test]
fn empty_email_is_invalid() {
    assert_eq!(validate_email(""), Err(StoreError::InvalidEmail));
}

#[test]
fn email_with_symbols_in_local_part_is_valid() {
    assert_eq!(validate_email("first.last+tag%x_y-z@mail.example.com"), Ok(()));
}

#[test]
fn email_with_hyphen_and_subdomains_is_valid() {
    assert_eq!(validate_email("A9@my-host.dept.Example.ORG"), Ok(()));
}

#[test]
fn email_outcome_lets_only_a_match_pass() {
    assert_eq!(email_outcome(Some(true)), Ok(()));
    assert_eq!(email_outcome(Some(false)), Err(StoreError::InvalidEmail));
    assert_eq!(email_outcome(None), Err(StoreError::InvalidEmail));
}

#[test]
fn password_of_seven_bytes_is_rejected() {
    assert_eq!(validate_password("1234567"), Err(StoreError::WeakPassword));
}

#[test]
fn password_of_eight_bytes_is_accepted() {
    assert_eq!(validate_password("12345678"), Ok(()));
}

#[test]
fn empty_password_is_rejected() {
    assert_eq!(validate_password(""), Err(StoreError::WeakPassword));
}

#[test]
fn password_length_is_counted_in_bytes() {
    assert_eq!(validate_password("äöüß"), Ok(()));
    assert_eq!(validate_password("äöü"), Err(StoreError::WeakPassword));
}
