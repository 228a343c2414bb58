use campus_store::error::{ErrorKind, StoreError};

#[test]
fn validation_errors_carry_their_texts() {
    assert_eq!(
        StoreError::MissingUserFields.message(),
        "Ensure 'username', 'password', and 'email' are provided."
    );
    assert_eq!(StoreError::InvalidEmail.message(), "Invalid email address.");
    assert_eq!(StoreError::EmailTaken.message(), "Email address already exists.");
    assert_eq!(
        StoreError::WeakPassword.message(),
        "Password must be at least 8 characters long."
    );
    assert_eq!(
        StoreError::MissingCourseFields.message(),
        "Ensure 'name' and 'duration_years' are provided."
    );
    assert_eq!(
        StoreError::MissingInstructorFields.message(),
        "Ensure 'name' and 'availability' are provided."
    );
    assert_eq!(
        StoreError::MissingClassroomFields.message(),
        "Ensure 'name' and 'capacity' are provided."
    );
    assert_eq!(
        StoreError::MissingTimetableFields.message(),
        "Ensure 'course_id', 'instructor_id', 'classroom_id', and 'time_slot' are provided."
    );
    assert_eq!(StoreError::EntityTooLarge.message(), "Entity does not fit in a stored record.");
}

#[test]
fn not_found_errors_carry_their_texts() {
    assert_eq!(StoreError::UserNotFound.message(), "User not found");
    assert_eq!(StoreError::NoUserToDelete.message(), "User not found.");
}

#[test]
fn empty_collection_errors_carry_their_texts() {
    assert_eq!(StoreError::NoUsers.message(), "No users found");
    assert_eq!(StoreError::NoCourses.message(), "No courses found");
    assert_eq!(StoreError::NoInstructors.message(), "No instructors found");
    assert_eq!(StoreError::NoClassrooms.message(), "No classrooms found");
    assert_eq!(StoreError::NoTimetables.message(), "No timetables found");
}

#[test]
fn fault_errors_carry_their_texts() {
    assert_eq!(StoreError::IdsExhausted.message(), "Cannot increment ID counter");
    assert_eq!(StoreError::DamagedRegion.message(), "Stored data cannot be read.");
}

#[test]
fn every_error_has_its_kind() {
    let validation = [
        StoreError::MissingUserFields,
        StoreError::InvalidEmail,
        StoreError::EmailTaken,
        StoreError::WeakPassword,
        StoreError::MissingCourseFields,
        StoreError::MissingInstructorFields,
        StoreError::MissingClassroomFields,
        StoreError::MissingTimetableFields,
        StoreError::EntityTooLarge,
    ];
    for error in validation {
        assert_eq!(error.kind(), ErrorKind::Validation);
    }
    for error in [StoreError::UserNotFound, StoreError::NoUserToDelete] {
        assert_eq!(error.kind(), ErrorKind::NotFound);
    }
    let empty = [
        StoreError::NoUsers,
        StoreError::NoCourses,
        StoreError::NoInstructors,
        StoreError::NoClassrooms,
        StoreError::NoTimetables,
    ];
    for error in empty {
        assert_eq!(error.kind(), ErrorKind::EmptyCollection);
    }
    for error in [StoreError::IdsExhausted, StoreError::DamagedRegion] {
        assert_eq!(error.kind(), ErrorKind::Fault);
    }
}
