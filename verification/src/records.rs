//! The five kinds of record the store keeps, the payloads they are created
//! from, and the mathematical value each stands for.

use crate::wire::texts_view;
use vstd::prelude::*;

verus! {

/// What a user may do.
#[derive(Clone, Copy, Debug, PartialEq, Eq, Hash, Structural)]
pub enum UserRole {
    Student,
    Instructor,
    Admin,
}

impl Default for UserRole {
    fn default() -> (role: UserRole)
        ensures
            role == UserRole::Student,
    {
        UserRole::Student
    }
}

/// A person known to the store.
#[derive(Clone, Debug, PartialEq, Eq)]
pub struct User {
    pub id: u64,
    pub username: String,
    pub password: String,
    pub role: UserRole,
    pub email: String,
    /// When the user was created; never changed afterwards.
    pub created_at: u64,
}

/// A course that can be scheduled.
#[derive(Clone, Debug, PartialEq, Eq)]
pub struct Course {
    pub id: u64,
    pub name: String,
    pub duration_years: u32,
    pub required_equipment: String,
    /// Ids of courses to be taken first; not checked against the course table.
    pub prerequisites: Vec<u64>,
}

/// Someone who teaches.
#[derive(Clone, Debug, PartialEq, Eq)]
pub struct Instructor {
    pub id: u64,
    pub name: String,
    pub availability: Vec<String>,
    pub preferred_times: Vec<String>,
}

/// A room courses are held in.
#[derive(Clone, Debug, PartialEq, Eq)]
pub struct Classroom {
    pub id: u64,
    pub name: String,
    pub capacity: u32,
    pub equipment: String,
}

/// One course given by one instructor in one classroom at one time slot.
/// The three ids are kept as given; nothing checks that they exist.
#[derive(Clone, Debug, PartialEq, Eq)]
pub struct Timetable {
    pub id: u64,
    pub course_id: u64,
    pub instructor_id: u64,
    pub classroom_id: u64,
    pub time_slot: String,
}

/// What a user is created or updated from.
#[derive(Clone, Debug, PartialEq, Eq)]
pub struct UserPayload {
    pub username: String,
    pub password: String,
    pub email: String,
    pub role: UserRole,
}

/// A change of one user's role.
#[derive(Clone, Debug, PartialEq, Eq)]
pub struct ChangeUserRolePayload {
    pub user_id: u64,
    pub role: UserRole,
}

/// What a course is created from.
#[derive(Clone, Debug, PartialEq, Eq)]
pub struct CoursePayload {
    pub name: String,
    pub duration_years: u32,
    pub required_equipment: String,
    pub prerequisites: Vec<u64>,
}

/// What an instructor is created from.
#[derive(Clone, Debug, PartialEq, Eq)]
pub struct InstructorPayload {
    pub name: String,
    pub availability: Vec<String>,
    pub preferred_times: Vec<String>,
}

/// What a classroom is created from.
#[derive(Clone, Debug, PartialEq, Eq)]
pub struct ClassroomPayload {
    pub name: String,
    pub capacity: u32,
    pub equipment: String,
}

/// What a timetable entry is created from.
#[derive(Clone, Debug, PartialEq, Eq)]
pub struct TimetablePayload {
    pub course_id: u64,
    pub instructor_id: u64,
    pub classroom_id: u64,
    pub time_slot: String,
}

/// The value of a [`User`].
pub struct UserView {
    pub id: u64,
    pub username: Seq<char>,
    pub password: Seq<char>,
    pub role: UserRole,
    pub email: Seq<char>,
    pub created_at: u64,
}

/// The value of a [`Course`].
pub struct CourseView {
    pub id: u64,
    pub name: Seq<char>,
    pub duration_years: u32,
    pub required_equipment: Seq<char>,
    pub prerequisites: Seq<u64>,
}

/// The value of an [`Instructor`].
pub struct InstructorView {
    pub id: u64,
    pub name: Seq<char>,
    pub availability: Seq<Seq<char>>,
    pub preferred_times: Seq<Seq<char>>,
}

/// The value of a [`Classroom`].
pub struct ClassroomView {
    pub id: u64,
    pub name: Seq<char>,
    pub capacity: u32,
    pub equipment: Seq<char>,
}

/// The value of a [`Timetable`].
pub struct TimetableView {
    pub id: u64,
    pub course_id: u64,
    pub instructor_id: u64,
    pub classroom_id: u64,
    pub time_slot: Seq<char>,
}

/// The value of a [`UserPayload`].
pub struct UserPayloadView {
    pub username: Seq<char>,
    pub password: Seq<char>,
    pub email: Seq<char>,
    pub role: UserRole,
}

/// The value of a [`CoursePayload`].
pub struct CoursePayloadView {
    pub name: Seq<char>,
    pub duration_years: u32,
    pub required_equipment: Seq<char>,
    pub prerequisites: Seq<u64>,
}

/// The value of an [`InstructorPayload`].
pub struct InstructorPayloadView {
    pub name: Seq<char>,
    pub availability: Seq<Seq<char>>,
    pub preferred_times: Seq<Seq<char>>,
}

/// The value of a [`ClassroomPayload`].
pub struct ClassroomPayloadView {
    pub name: Seq<char>,
    pub capacity: u32,
    pub equipment: Seq<char>,
}

/// The value of a [`TimetablePayload`].
pub struct TimetablePayloadView {
    pub course_id: u64,
    pub instructor_id: u64,
    pub classroom_id: u64,
    pub time_slot: Seq<char>,
}

impl View for User {
    type V = UserView;

    open spec fn view(&self) -> UserView {
        UserView {
            id: self.id,
            username: self.username@,
            password: self.password@,
            role: self.role,
            email: self.email@,
            created_at: self.created_at,
        }
    }
}

impl View for Course {
    type V = CourseView;

    open spec fn view(&self) -> CourseView {
        CourseView {
            id: self.id,
            name: self.name@,
            duration_years: self.duration_years,
            required_equipment: self.required_equipment@,
            prerequisites: self.prerequisites@,
        }
    }
}

impl View for Instructor {
    type V = InstructorView;

    open spec fn view(&self) -> InstructorView {
        InstructorView {
            id: self.id,
            name: self.name@,
            availability: texts_view(self.availability@),
            preferred_times: texts_view(self.preferred_times@),
        }
    }
}

impl View for Classroom {
    type V = ClassroomView;

    open spec fn view(&self) -> ClassroomView {
        ClassroomView {
            id: self.id,
            name: self.name@,
            capacity: self.capacity,
            equipment: self.equipment@,
        }
    }
}

impl View for Timetable {
    type V = TimetableView;

    open spec fn view(&self) -> TimetableView {
        TimetableView {
            id: self.id,
            course_id: self.course_id,
            instructor_id: self.instructor_id,
            classroom_id: self.classroom_id,
            time_slot: self.time_slot@,
        }
    }
}

impl View for UserPayload {
    type V = UserPayloadView;

    open spec fn view(&self) -> UserPayloadView {
        UserPayloadView {
            username: self.username@,
            password: self.password@,
            email: self.email@,
            role: self.role,
        }
    }
}

impl View for CoursePayload {
    type V = CoursePayloadView;

    open spec fn view(&self) -> CoursePayloadView {
        CoursePayloadView {
            name: self.name@,
            duration_years: self.duration_years,
            required_equipment: self.required_equipment@,
            prerequisites: self.prerequisites@,
        }
    }
}

impl View for InstructorPayload {
    type V = InstructorPayloadView;

    open spec fn view(&self) -> InstructorPayloadView {
        InstructorPayloadView {
            name: self.name@,
            availability: texts_view(self.availability@),
            preferred_times: texts_view(self.preferred_times@),
        }
    }
}

impl View for ClassroomPayload {
    type V = ClassroomPayloadView;

    open spec fn view(&self) -> ClassroomPayloadView {
        ClassroomPayloadView {
            name: self.name@,
            capacity: self.capacity,
            equipment: self.equipment@,
        }
    }
}

impl View for TimetablePayload {
    type V = TimetablePayloadView;

    open spec fn view(&self) -> TimetablePayloadView {
        TimetablePayloadView {
            course_id: self.course_id,
            instructor_id: self.instructor_id,
            classroom_id: self.classroom_id,
            time_slot: self.time_slot@,
        }
    }
}

} // verus!
