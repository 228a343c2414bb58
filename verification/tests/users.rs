use campus_store::error::{ErrorKind, StoreError};
use campus_store::records::{ChangeUserRolePayload, User, UserPayload, UserRole};
use campus_store::store::Store;

fn payload(username: &str, password: &str, email: &str, role: UserRole) -> UserPayload {
    UserPayload {
        username: username.to_string(),
        password: password.to_string(),
        email: email.to_string(),
        role,
    }
}

fn ada() -> UserPayload {
    payload("ada", "difference", "ada@example.org", UserRole::Admin)
}

fn eve() -> UserPayload {
    payload("eve", "analytical", "eve@example.org", UserRole::Student)
}

#[test]
fn first_user_gets_id_zero() {
    let mut store = Store::init().unwrap();
    let user = store.create_user(ada(), 42).unwrap();
    assert_eq!(
        user,
        User {
            id: 0,
            username: "ada".to_string(),
            password: "difference".to_string(),
            role: UserRole::Admin,
            email: "ada@example.org".to_string(),
            created_at: 42,
        }
    );
    assert_eq!(store.get_users().unwrap(), vec![user]);
}

#[test]
fn default_role_is_student() {
    assert_eq!(UserRole::default(), UserRole::Student);
}

#[test]
fn user_ids_grow_with_every_creation() {
    let mut store = Store::init().unwrap();
    let first = store.create_user(ada(), 1).unwrap();
    let second = store.create_user(eve(), 2).unwrap();
    let third = store
        .create_user(payload("bob", "12345678", "bob@example.org", UserRole::Instructor), 3)
        .unwrap();
    assert_eq!((first.id, second.id, third.id), (0, 1, 2));
    assert_eq!(store.get_users().unwrap(), vec![first, second, third]);
}

#[test]
fn next_id_returns_the_value_before_the_increment() {
    let mut store = Store::init().unwrap();
    assert_eq!(store.next_id(), Ok(0));
    assert_eq!(store.next_id(), Ok(1));
    let user = store.create_user(ada(), 5).unwrap();
    assert_eq!(user.id, 2);
    assert_eq!(store.next_id(), Ok(3));
}

#[test]
fn user_with_empty_username_is_rejected() {
    let mut store = Store::init().unwrap();
    let created = store.create_user(payload("", "difference", "ada@example.org", UserRole::Admin), 1);
    assert_eq!(created, Err(StoreError::MissingUserFields));
}

#[test]
fn user_with_empty_password_is_rejected() {
    let mut store = Store::init().unwrap();
    let created = store.create_user(payload("ada", "", "ada@example.org", UserRole::Admin), 1);
    assert_eq!(created, Err(StoreError::MissingUserFields));
}

#[test]
fn user_with_empty_email_is_rejected() {
    let mut store = Store::init().unwrap();
    let created = store.create_user(payload("ada", "difference", "", UserRole::Admin), 1);
    assert_eq!(created, Err(StoreError::MissingUserFields));
}

#[test]
fn user_with_malformed_email_is_rejected() {
    let mut store = Store::init().unwrap();
    let created = store.create_user(payload("ada", "difference", "ada@example", UserRole::Admin), 1);
    assert_eq!(created, Err(StoreError::InvalidEmail));
    assert_eq!(store.get_users(), Err(StoreError::NoUsers));
}

#[test]
fn malformed_email_is_reported_before_short_password() {
    let mut store = Store::init().unwrap();
    let created = store.create_user(payload("ada", "short", "nonsense", UserRole::Admin), 1);
    assert_eq!(created, Err(StoreError::InvalidEmail));
}

#[test]
fn taken_email_is_reported_before_short_password() {
    let mut store = Store::init().unwrap();
    store.create_user(ada(), 1).unwrap();
    let created = store.create_user(payload("eve", "short", "ada@example.org", UserRole::Admin), 2);
    assert_eq!(created, Err(StoreError::EmailTaken));
}

#[test]
fn duplicate_email_is_rejected_and_takes_no_id() {
    let mut store = Store::init().unwrap();
    let first = store.create_user(ada(), 1).unwrap();
    let second =
        store.create_user(payload("eve", "analytical", "ada@example.org", UserRole::Student), 2);
    assert_eq!(second, Err(StoreError::EmailTaken));
    assert_eq!(StoreError::EmailTaken.kind(), ErrorKind::Validation);
    assert_eq!(store.get_users().unwrap(), vec![first]);
    assert_eq!(store.next_id(), Ok(1));
}

#[test]
fn email_uniqueness_is_case_sensitive() {
    let mut store = Store::init().unwrap();
    store.create_user(ada(), 1).unwrap();
    assert!(!store.is_email_unique("ada@example.org"));
    assert!(store.is_email_unique("Ada@example.org"));
    let second = store
        .create_user(payload("eve", "analytical", "Ada@example.org", UserRole::Student), 2)
        .unwrap();
    assert_eq!(second.id, 1);
}

#[test]
fn every_email_is_unique_in_an_empty_store() {
    let store = Store::init().unwrap();
    assert!(store.is_email_unique("ada@example.org"));
    assert!(store.is_email_unique(""));
}

#[test]
fn password_of_seven_bytes_is_rejected_on_creation() {
    let mut store = Store::init().unwrap();
    let created = store.create_user(payload("ada", "1234567", "ada@example.org", UserRole::Admin), 1);
    assert_eq!(created, Err(StoreError::WeakPassword));
    assert_eq!(store.next_id(), Ok(0));
}

#[test]
fn password_of_eight_bytes_is_accepted_on_creation() {
    let mut store = Store::init().unwrap();
    let created = store
        .create_user(payload("ada", "12345678", "ada@example.org", UserRole::Admin), 1)
        .unwrap();
    assert_eq!(created.password, "12345678");
    assert_eq!(created.id, 0);
}

#[test]
fn user_that_does_not_fit_is_rejected_and_takes_no_id() {
    let mut store = Store::init().unwrap();
    let long_name = "n".repeat(2000);
    let created =
        store.create_user(payload(&long_name, "difference", "ada@example.org", UserRole::Admin), 1);
    assert_eq!(created, Err(StoreError::EntityTooLarge));
    assert_eq!(StoreError::EntityTooLarge.kind(), ErrorKind::Validation);
    assert_eq!(store.get_users(), Err(StoreError::NoUsers));
    assert_eq!(store.next_id(), Ok(0));
}

#[test]
fn get_users_on_empty_table_is_an_error() {
    let store = Store::init().unwrap();
    assert_eq!(store.get_users(), Err(StoreError::NoUsers));
    assert_eq!(StoreError::NoUsers.kind(), ErrorKind::EmptyCollection);
}

#[test]
fn change_user_role_changes_only_the_role() {
    let mut store = Store::init().unwrap();
    let other = store.create_user(eve(), 6).unwrap();
    let user = store.create_user(ada(), 7).unwrap();
    let changed = store
        .change_user_role(ChangeUserRolePayload { user_id: user.id, role: UserRole::Instructor })
        .unwrap();
    assert_eq!(changed, User { role: UserRole::Instructor, ..user });
    assert_eq!(store.get_users().unwrap(), vec![other, changed]);
    assert_eq!(store.next_id(), Ok(2));
}

#[test]
fn change_user_role_of_missing_user_is_not_found() {
    let mut store = Store::init().unwrap();
    store.create_user(ada(), 7).unwrap();
    let changed =
        store.change_user_role(ChangeUserRolePayload { user_id: 9, role: UserRole::Instructor });
    assert_eq!(changed, Err(StoreError::UserNotFound));
    assert_eq!(StoreError::UserNotFound.kind(), ErrorKind::NotFound);
}

#[test]
fn update_user_keeps_id_and_creation_time() {
    let mut store = Store::init().unwrap();
    store.next_id().unwrap();
    let user = store.create_user(ada(), 1000).unwrap();
    let updated = store.update_user(user.id, eve()).unwrap();
    assert_eq!(
        updated,
        User {
            id: 1,
            username: "eve".to_string(),
            password: "analytical".to_string(),
            role: UserRole::Student,
            email: "eve@example.org".to_string(),
            created_at: 1000,
        }
    );
    assert_eq!(store.get_users().unwrap(), vec![updated]);
    assert_eq!(store.next_id(), Ok(2));
}

#[test]
fn update_user_does_not_hold_the_payload_against_the_rules() {
    let mut store = Store::init().unwrap();
    let first = store.create_user(ada(), 1).unwrap();
    let second = store.create_user(eve(), 2).unwrap();
    let updated = store
        .update_user(second.id, payload("", "x", "ada@example.org", UserRole::Admin))
        .unwrap();
    assert_eq!(updated.username, "");
    assert_eq!(updated.password, "x");
    assert_eq!(updated.email, "ada@example.org");
    assert_eq!(store.get_users().unwrap(), vec![first, updated]);
}

#[test]
fn update_of_missing_user_is_not_found() {
    let mut store = Store::init().unwrap();
    assert_eq!(store.update_user(0, ada()), Err(StoreError::UserNotFound));
    assert_eq!(store.get_users(), Err(StoreError::NoUsers));
}

#[test]
fn update_that_does_not_fit_changes_nothing() {
    let mut store = Store::init().unwrap();
    let user = store.create_user(ada(), 1).unwrap();
    let long_name = "n".repeat(1024);
    let updated = store.update_user(
        user.id,
        payload(&long_name, "difference", "ada@example.org", UserRole::Admin),
    );
    assert_eq!(updated, Err(StoreError::EntityTooLarge));
    assert_eq!(store.get_users().unwrap(), vec![user]);
}

#[test]
fn delete_user_removes_it_from_the_listing() {
    let mut store = Store::init().unwrap();
    let first = store.create_user(ada(), 1).unwrap();
    let second = store.create_user(eve(), 2).unwrap();
    assert_eq!(store.delete_user(first.id), Ok("User deleted successfully.".to_string()));
    assert_eq!(store.get_users().unwrap(), vec![second]);
}

#[test]
fn delete_of_missing_user_is_not_found() {
    let mut store = Store::init().unwrap();
    let first = store.create_user(ada(), 1).unwrap();
    assert_eq!(store.delete_user(5), Err(StoreError::NoUserToDelete));
    assert_eq!(StoreError::NoUserToDelete.kind(), ErrorKind::NotFound);
    assert_eq!(store.get_users().unwrap(), vec![first]);
}

#[test]
fn deleting_twice_fails_the_second_time() {
    let mut store = Store::init().unwrap();
    let first = store.create_user(ada(), 1).unwrap();
    assert!(store.delete_user(first.id).is_ok());
    assert_eq!(store.delete_user(first.id), Err(StoreError::NoUserToDelete));
    assert_eq!(store.get_users(), Err(StoreError::NoUsers));
}

#[test]
fn id_of_deleted_user_is_not_issued_again() {
    let mut store = Store::init().unwrap();
    let first = store.create_user(ada(), 1).unwrap();
    store.delete_user(first.id).unwrap();
    let again = store.create_user(ada(), 2).unwrap();
    assert_eq!(again.id, 1);
}

#[test]
fn email_of_deleted_user_is_free_again() {
    let mut store = Store::init().unwrap();
    let first = store.create_user(ada(), 1).unwrap();
    assert!(!store.is_email_unique("ada@example.org"));
    store.delete_user(first.id).unwrap();
    assert!(store.is_email_unique("ada@example.org"));
}

#[test]
fn many_users_are_kept_listed_and_deleted_by_id() {
    let mut store = Store::init().unwrap();
    let mut expected = Vec::new();
    for number in 0..300u64 {
        let user = store
            .create_user(
                payload(
                    &format!("user{number}"),
                    "long enough",
                    &format!("user{number}@example.org"),
                    UserRole::Student,
                ),
                number * 10,
            )
            .unwrap();
        assert_eq!(user.id, number);
        expected.push(user);
    }
    assert_eq!(store.get_users().unwrap(), expected);
    for number in (0..300u64).step_by(3) {
        assert_eq!(store.delete_user(number), Ok("User deleted successfully.".to_string()));
    }
    expected.retain(|user| user.id % 3 != 0);
    assert_eq!(store.get_users().unwrap(), expected);
    assert_eq!(expected.len(), 200);
    assert!(store.is_email_unique("user0@example.org"));
    assert!(!store.is_email_unique("user1@example.org"));
    let changed = store
        .change_user_role(ChangeUserRolePayload { user_id: 299, role: UserRole::Admin })
        .unwrap();
    assert_eq!(changed.created_at, 2990);
    assert_eq!(store.get_users().unwrap().last(), Some(&changed));
    assert_eq!(store.next_id(), Ok(300));
}
