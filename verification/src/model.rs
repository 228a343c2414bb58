//! The store as a value: what it holds, and what each operation makes of it.
//!
//! Every operation of the store is stated here as a function from the value
//! of the store before to the value after and the result. The store itself
//! is held to these functions; the laws are proved of them.

use crate::codec::{fits, Record};
use crate::error::StoreError;
use crate::pattern::{is_valid_email, is_valid_password};
use crate::records::{
    Classroom, ClassroomPayloadView, ClassroomView, Course, CoursePayloadView, CourseView,
    Instructor, InstructorPayloadView, InstructorView, Timetable, TimetablePayloadView,
    TimetableView, User, UserPayloadView, UserRole, UserView,
};
use crate::table::{listing, views_of};
use vstd::prelude::*;

verus! {

/// The value of a store: the next id to be issued and the records of each
/// table by id.
pub struct StoreView {
    /// The id the counter issues next.
    pub counter: u64,
    /// The users by id.
    pub users: Map<u64, UserView>,
    /// The courses by id.
    pub courses: Map<u64, CourseView>,
    /// The instructors by id.
    pub instructors: Map<u64, InstructorView>,
    /// The classrooms by id.
    pub classrooms: Map<u64, ClassroomView>,
    /// The timetable entries by id.
    pub timetables: Map<u64, TimetableView>,
}

/// A finite table in which every record fits in a record's bytes and is
/// kept under its own id, and every id is below `limit`.
pub open spec fn keyed<E: Record>(table: Map<u64, E::V>, limit: u64) -> bool {
    &&& table.dom().finite()
    &&& forall|k: u64| #[trigger]
        table.contains_key(k) ==> k < limit && E::key(table[k]) == k && fits::<E>(table[k])
}

/// No user of the table has the email.
pub open spec fn email_unused(users: Map<u64, UserView>, email: Seq<char>) -> bool {
    forall|id: u64| #[trigger] users.contains_key(id) ==> users[id].email != email
}

/// The first rule a user payload breaks, if it breaks one.
pub open spec fn user_rejection(payload: UserPayloadView, users: Map<u64, UserView>) -> Option<
    StoreError,
> {
    if payload.username.len() == 0 || payload.password.len() == 0 || payload.email.len() == 0 {
        Some(StoreError::MissingUserFields)
    } else if !is_valid_email(payload.email) {
        Some(StoreError::InvalidEmail)
    } else if !email_unused(users, payload.email) {
        Some(StoreError::EmailTaken)
    } else if !is_valid_password(payload.password) {
        Some(StoreError::WeakPassword)
    } else {
        None
    }
}

/// The rule a course payload breaks, if it breaks one.
pub open spec fn course_rejection(payload: CoursePayloadView) -> Option<StoreError> {
    if payload.name.len() == 0 || payload.duration_years == 0 {
        Some(StoreError::MissingCourseFields)
    } else {
        None
    }
}

/// The rule an instructor payload breaks, if it breaks one.
pub open spec fn instructor_rejection(payload: InstructorPayloadView) -> Option<StoreError> {
    if payload.name.len() == 0 || payload.availability.len() == 0 {
        Some(StoreError::MissingInstructorFields)
    } else {
        None
    }
}

/// The rule a classroom payload breaks, if it breaks one.
pub open spec fn classroom_rejection(payload: ClassroomPayloadView) -> Option<StoreError> {
    if payload.name.len() == 0 || payload.capacity == 0 {
        Some(StoreError::MissingClassroomFields)
    } else {
        None
    }
}

/// The rule a timetable payload breaks, if it breaks one.
pub open spec fn timetable_rejection(payload: TimetablePayloadView) -> Option<StoreError> {
    if payload.course_id == 0 || payload.instructor_id == 0 || payload.classroom_id == 0
        || payload.time_slot.len() == 0 {
        Some(StoreError::MissingTimetableFields)
    } else {
        None
    }
}

/// The user a payload makes, under the id and creation time given.
pub open spec fn user_from(payload: UserPayloadView, id: u64, created_at: u64) -> UserView {
    UserView {
        id,
        username: payload.username,
        password: payload.password,
        role: payload.role,
        email: payload.email,
        created_at,
    }
}

/// The course a payload makes, under the id given.
pub open spec fn course_from(payload: CoursePayloadView, id: u64) -> CourseView {
    CourseView {
        id,
        name: payload.name,
        duration_years: payload.duration_years,
        required_equipment: payload.required_equipment,
        prerequisites: payload.prerequisites,
    }
}

/// The instructor a payload makes, under the id given.
pub open spec fn instructor_from(payload: InstructorPayloadView, id: u64) -> InstructorView {
    InstructorView {
        id,
        name: payload.name,
        availability: payload.availability,
        preferred_times: payload.preferred_times,
    }
}

/// The classroom a payload makes, under the id given.
pub open spec fn classroom_from(payload: ClassroomPayloadView, id: u64) -> ClassroomView {
    ClassroomView { id, name: payload.name, capacity: payload.capacity, equipment: payload.equipment }
}

/// The timetable entry a payload makes, under the id given.
pub open spec fn timetable_from(payload: TimetablePayloadView, id: u64) -> TimetableView {
    TimetableView {
        id,
        course_id: payload.course_id,
        instructor_id: payload.instructor_id,
        classroom_id: payload.classroom_id,
        time_slot: payload.time_slot,
    }
}

/// Why a record that passed its rules is still not admitted, if it is not:
/// its bytes do not fit, or the counter has no id left.
pub open spec fn admission_refusal<E: Record>(record: E::V, next_id: u64) -> Option<StoreError> {
    if !fits::<E>(record) {
        Some(StoreError::EntityTooLarge)
    } else if next_id == u64::MAX {
        Some(StoreError::IdsExhausted)
    } else {
        None
    }
}

/// What an operation returned, seen as values.
pub open spec fn agrees<T: View>(returned: Result<T, StoreError>, expected: Result<
    T::V,
    StoreError,
>) -> bool {
    match returned {
        Ok(value) => expected == Ok::<T::V, StoreError>(value@),
        Err(error) => expected == Err::<T::V, StoreError>(error),
    }
}

/// What a listing returned, seen as values.
pub open spec fn agrees_list<T: View>(returned: Result<Vec<T>, StoreError>, expected: Result<
    Seq<T::V>,
    StoreError,
>) -> bool {
    match returned {
        Ok(list) => expected == Ok::<Seq<T::V>, StoreError>(views_of(list@)),
        Err(error) => expected == Err::<Seq<T::V>, StoreError>(error),
    }
}

/// What listing a table gives: its records by ascending id, or the error
/// given where it has none.
pub open spec fn list_or<E: Record>(table: Map<u64, E::V>, empty: StoreError) -> Result<
    Seq<E::V>,
    StoreError,
> {
    if table.dom().len() == 0 {
        Err(empty)
    } else {
        Ok(listing::<E>(table))
    }
}

/// The id the counter issues first.
pub const COUNTER_START: u64 = 0;

impl StoreView {
    /// The store of a first run: no record in any table, and the counter at
    /// [`COUNTER_START`].
    pub open spec fn fresh() -> StoreView {
        StoreView {
            counter: COUNTER_START,
            users: Map::empty(),
            courses: Map::empty(),
            instructors: Map::empty(),
            classrooms: Map::empty(),
            timetables: Map::empty(),
        }
    }

    /// Every table is finite, holds only records that fit, keeps each under
    /// its own id, and holds only ids the counter has issued.
    pub open spec fn wf(self) -> bool {
        &&& keyed::<User>(self.users, self.counter)
        &&& keyed::<Course>(self.courses, self.counter)
        &&& keyed::<Instructor>(self.instructors, self.counter)
        &&& keyed::<Classroom>(self.classrooms, self.counter)
        &&& keyed::<Timetable>(self.timetables, self.counter)
    }

    /// The store after `n` more ids were issued.
    pub open spec fn issue(self, n: nat) -> StoreView {
        StoreView { counter: (self.counter + n) as u64, ..self }
    }

    /// The store with `user` kept under its id.
    pub open spec fn with_user(self, user: UserView) -> StoreView {
        StoreView { users: self.users.insert(user.id, user), ..self }
    }

    /// The store without a user under `id`.
    pub open spec fn without_user(self, id: u64) -> StoreView {
        StoreView { users: self.users.remove(id), ..self }
    }

    /// The store with `course` kept under its id.
    pub open spec fn with_course(self, course: CourseView) -> StoreView {
        StoreView { courses: self.courses.insert(course.id, course), ..self }
    }

    /// The store with `instructor` kept under its id.
    pub open spec fn with_instructor(self, instructor: InstructorView) -> StoreView {
        StoreView { instructors: self.instructors.insert(instructor.id, instructor), ..self }
    }

    /// The store with `classroom` kept under its id.
    pub open spec fn with_classroom(self, classroom: ClassroomView) -> StoreView {
        StoreView { classrooms: self.classrooms.insert(classroom.id, classroom), ..self }
    }

    /// The store with `timetable` kept under its id.
    pub open spec fn with_timetable(self, timetable: TimetableView) -> StoreView {
        StoreView { timetables: self.timetables.insert(timetable.id, timetable), ..self }
    }

    /// What listing the users gives.
    pub open spec fn get_users(self) -> Result<Seq<UserView>, StoreError> {
        list_or::<User>(self.users, StoreError::NoUsers)
    }

    /// What listing the courses gives.
    pub open spec fn get_courses(self) -> Result<Seq<CourseView>, StoreError> {
        list_or::<Course>(self.courses, StoreError::NoCourses)
    }

    /// What listing the instructors gives.
    pub open spec fn get_instructors(self) -> Result<Seq<InstructorView>, StoreError> {
        list_or::<Instructor>(self.instructors, StoreError::NoInstructors)
    }

    /// What listing the classrooms gives.
    pub open spec fn get_classrooms(self) -> Result<Seq<ClassroomView>, StoreError> {
        list_or::<Classroom>(self.classrooms, StoreError::NoClassrooms)
    }

    /// What listing the timetable entries gives.
    pub open spec fn get_timetables(self) -> Result<Seq<TimetableView>, StoreError> {
        list_or::<Timetable>(self.timetables, StoreError::NoTimetables)
    }

    /// What issuing one id does: the store afterwards and the id, or the
    /// store as it was and the reason.
    pub open spec fn next_id(self) -> (StoreView, Result<u64, StoreError>) {
        if self.counter == u64::MAX {
            (self, Err(StoreError::IdsExhausted))
        } else {
            (self.issue(1), Ok(self.counter))
        }
    }

    /// What putting a changed user back does: the store with the user in
    /// place of the earlier one, or the store as it was where the user no
    /// longer fits in a record.
    pub open spec fn replace_user(self, user: UserView) -> (
        StoreView,
        Result<UserView, StoreError>,
    ) {
        if fits::<User>(user) {
            (self.with_user(user), Ok(user))
        } else {
            (self, Err(StoreError::EntityTooLarge))
        }
    }

    /// What changing a user's role does: only the role of that user changes.
    pub open spec fn change_user_role(self, user_id: u64, role: UserRole) -> (
        StoreView,
        Result<UserView, StoreError>,
    ) {
        if self.users.contains_key(user_id) {
            self.replace_user(UserView { role, ..self.users[user_id] })
        } else {
            (self, Err(StoreError::UserNotFound))
        }
    }

    /// What updating a user does: the user keeps its id and its time of
    /// creation and takes everything else from the payload.
    pub open spec fn update_user(self, user_id: u64, payload: UserPayloadView) -> (
        StoreView,
        Result<UserView, StoreError>,
    ) {
        if self.users.contains_key(user_id) {
            self.replace_user(
                UserView {
                    username: payload.username,
                    password: payload.password,
                    email: payload.email,
                    role: payload.role,
                    ..self.users[user_id]
                },
            )
        } else {
            (self, Err(StoreError::UserNotFound))
        }
    }

    /// What deleting a user does: the user is gone and a confirmation is
    /// returned, or nothing changes where there is no such user.
    pub open spec fn delete_user(self, user_id: u64) -> (StoreView, Result<Seq<char>, StoreError>) {
        if self.users.contains_key(user_id) {
            (self.without_user(user_id), Ok("User deleted successfully."@))
        } else {
            (self, Err(StoreError::NoUserToDelete))
        }
    }

    /// What creating a course does.
    pub open spec fn create_course(self, payload: CoursePayloadView) -> (
        StoreView,
        Result<CourseView, StoreError>,
    ) {
        let course = course_from(payload, self.counter);
        match course_rejection(payload) {
            Some(error) => (self, Err(error)),
            None => match admission_refusal::<Course>(course, self.counter) {
                Some(error) => (self, Err(error)),
                None => (self.issue(1).with_course(course), Ok(course)),
            },
        }
    }

    /// What creating an instructor does.
    pub open spec fn create_instructor(self, payload: InstructorPayloadView) -> (
        StoreView,
        Result<InstructorView, StoreError>,
    ) {
        let instructor = instructor_from(payload, self.counter);
        match instructor_rejection(payload) {
            Some(error) => (self, Err(error)),
            None => match admission_refusal::<Instructor>(instructor, self.counter) {
                Some(error) => (self, Err(error)),
                None => (self.issue(1).with_instructor(instructor), Ok(instructor)),
            },
        }
    }

    /// What creating a classroom does.
    pub open spec fn create_classroom(self, payload: ClassroomPayloadView) -> (
        StoreView,
        Result<ClassroomView, StoreError>,
    ) {
        let classroom = classroom_from(payload, self.counter);
        match classroom_rejection(payload) {
            Some(error) => (self, Err(error)),
            None => match admission_refusal::<Classroom>(classroom, self.counter) {
                Some(error) => (self, Err(error)),
                None => (self.issue(1).with_classroom(classroom), Ok(classroom)),
            },
        }
    }

    /// What creating a timetable entry does.
    pub open spec fn create_timetable(self, payload: TimetablePayloadView) -> (
        StoreView,
        Result<TimetableView, StoreError>,
    ) {
        let timetable = timetable_from(payload, self.counter);
        match timetable_rejection(payload) {
            Some(error) => (self, Err(error)),
            None => match admission_refusal::<Timetable>(timetable, self.counter) {
                Some(error) => (self, Err(error)),
                None => (self.issue(1).with_timetable(timetable), Ok(timetable)),
            },
        }
    }

    /// What creating a user does: the store afterwards and the user, or the
    /// store as it was and the reason.
    pub open spec fn create_user(self, payload: UserPayloadView, now: u64) -> (
        StoreView,
        Result<UserView, StoreError>,
    ) {
        let user = user_from(payload, self.counter, now);
        match user_rejection(payload, self.users) {
            Some(error) => (self, Err(error)),
            None => match admission_refusal::<User>(user, self.counter) {
                Some(error) => (self, Err(error)),
                None => (self.issue(1).with_user(user), Ok(user)),
            },
        }
    }
}

} // verus!
