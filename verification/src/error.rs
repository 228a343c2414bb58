//! What an operation of the store reports when it does not succeed.

use vstd::prelude::*;

verus! {

/// The broad class an error falls in.
#[derive(Clone, Copy, Debug, PartialEq, Eq, Structural)]
pub enum ErrorKind {
    /// The input was missing, malformed, too large or not unique.
    Validation,
    /// The operation named an id that its table does not hold.
    NotFound,
    /// A listing found its table empty.
    EmptyCollection,
    /// The durable state cannot serve the operation.
    Fault,
}

/// Every way an operation of the store can fail.
#[derive(Clone, Copy, Debug, PartialEq, Eq, Structural)]
pub enum StoreError {
    /// A user's name, password or email is empty.
    MissingUserFields,
    /// The email does not have the shape of an address.
    InvalidEmail,
    /// Another user already has the email.
    EmailTaken,
    /// The password is shorter than eight bytes.
    WeakPassword,
    /// A course's name is empty or its duration is zero.
    MissingCourseFields,
    /// An instructor's name or availability is empty.
    MissingInstructorFields,
    /// A classroom's name is empty or its capacity is zero.
    MissingClassroomFields,
    /// A timetable entry names the id zero or has no time slot.
    MissingTimetableFields,
    /// The entity does not fit in the bytes a table gives one record.
    EntityTooLarge,
    /// No user has the id that was to be changed.
    UserNotFound,
    /// No user has the id that was to be deleted.
    NoUserToDelete,
    /// The user table is empty.
    NoUsers,
    /// The course table is empty.
    NoCourses,
    /// The instructor table is empty.
    NoInstructors,
    /// The classroom table is empty.
    NoClassrooms,
    /// The timetable table is empty.
    NoTimetables,
    /// The counter cannot issue as many ids as were asked for.
    IdsExhausted,
    /// A region holds bytes that are no record of its table, a record under
    /// a key that is not its id, or an id the counter has not issued yet.
    DamagedRegion,
}

impl StoreError {
    /// The class of this error.
    pub open spec fn class(self) -> ErrorKind {
        match self {
            StoreError::MissingUserFields
            | StoreError::InvalidEmail
            | StoreError::EmailTaken
            | StoreError::WeakPassword
            | StoreError::MissingCourseFields
            | StoreError::MissingInstructorFields
            | StoreError::MissingClassroomFields
            | StoreError::MissingTimetableFields
            | StoreError::EntityTooLarge => ErrorKind::Validation,
            StoreError::UserNotFound | StoreError::NoUserToDelete => ErrorKind::NotFound,
            StoreError::NoUsers
            | StoreError::NoCourses
            | StoreError::NoInstructors
            | StoreError::NoClassrooms
            | StoreError::NoTimetables => ErrorKind::EmptyCollection,
            StoreError::IdsExhausted | StoreError::DamagedRegion => ErrorKind::Fault,
        }
    }

    /// The text shown to a caller.
    pub open spec fn text(self) -> Seq<char> {
        match self {
            StoreError::MissingUserFields => "Ensure 'username', 'password', and 'email' are provided."@,
            StoreError::InvalidEmail => "Invalid email address."@,
            StoreError::EmailTaken => "Email address already exists."@,
            StoreError::WeakPassword => "Password must be at least 8 characters long."@,
            StoreError::MissingCourseFields => "Ensure 'name' and 'duration_years' are provided."@,
            StoreError::MissingInstructorFields => "Ensure 'name' and 'availability' are provided."@,
            StoreError::MissingClassroomFields => "Ensure 'name' and 'capacity' are provided."@,
            StoreError::MissingTimetableFields => "Ensure 'course_id', 'instructor_id', 'classroom_id', and 'time_slot' are provided."@,
            StoreError::EntityTooLarge => "Entity does not fit in a stored record."@,
            StoreError::UserNotFound => "User not found"@,
            StoreError::NoUserToDelete => "User not found."@,
            StoreError::NoUsers => "No users found"@,
            StoreError::NoCourses => "No courses found"@,
            StoreError::NoInstructors => "No instructors found"@,
            StoreError::NoClassrooms => "No classrooms found"@,
            StoreError::NoTimetables => "No timetables found"@,
            StoreError::IdsExhausted => "Cannot increment ID counter"@,
            StoreError::DamagedRegion => "Stored data cannot be read."@,
        }
    }

    /// The class of this error.
    pub fn kind(&self) -> (kind: ErrorKind)
        ensures
            kind == self.class(),
    {
        match self {
            StoreError::MissingUserFields
            | StoreError::InvalidEmail
            | StoreError::EmailTaken
            | StoreError::WeakPassword
            | StoreError::MissingCourseFields
            | StoreError::MissingInstructorFields
            | StoreError::MissingClassroomFields
            | StoreError::MissingTimetableFields
            | StoreError::EntityTooLarge => ErrorKind::Validation,
            StoreError::UserNotFound | StoreError::NoUserToDelete => ErrorKind::NotFound,
            StoreError::NoUsers
            | StoreError::NoCourses
            | StoreError::NoInstructors
            | StoreError::NoClassrooms
            | StoreError::NoTimetables => ErrorKind::EmptyCollection,
            StoreError::IdsExhausted | StoreError::DamagedRegion => ErrorKind::Fault,
        }
    }

    /// The text shown to a caller.
    pub fn message(&self) -> (message: String)
        ensures
            message@ == self.text(),
    {
        match self {
            StoreError::MissingUserFields => "Ensure 'username', 'password', and 'email' are provided.".to_owned(),
            StoreError::InvalidEmail => "Invalid email address.".to_owned(),
            StoreError::EmailTaken => "Email address already exists.".to_owned(),
            StoreError::WeakPassword => "Password must be at least 8 characters long.".to_owned(),
            StoreError::MissingCourseFields => "Ensure 'name' and 'duration_years' are provided.".to_owned(),
            StoreError::MissingInstructorFields => "Ensure 'name' and 'availability' are provided.".to_owned(),
            StoreError::MissingClassroomFields => "Ensure 'name' and 'capacity' are provided.".to_owned(),
            StoreError::MissingTimetableFields => "Ensure 'course_id', 'instructor_id', 'classroom_id', and 'time_slot' are provided.".to_owned(),
            StoreError::EntityTooLarge => "Entity does not fit in a stored record.".to_owned(),
            StoreError::UserNotFound => "User not found".to_owned(),
            StoreError::NoUserToDelete => "User not found.".to_owned(),
            StoreError::NoUsers => "No users found".to_owned(),
            StoreError::NoCourses => "No courses found".to_owned(),
            StoreError::NoInstructors => "No instructors found".to_owned(),
            StoreError::NoClassrooms => "No classrooms found".to_owned(),
            StoreError::NoTimetables => "No timetables found".to_owned(),
            StoreError::IdsExhausted => "Cannot increment ID counter".to_owned(),
            StoreError::DamagedRegion => "Stored data cannot be read.".to_owned(),
        }
    }
}

} // verus!
