//! How each kind of record is written to bytes and read back.
//!
//! A record is its fields in the order of their declaration, each in the form
//! the `wire` module gives its type. Reading is strict: bytes that stop short,
//! go on after the last field, or hold a text that is not UTF-8 are no record.

use crate::records::{
    Classroom, ClassroomView, Course, CourseView, Instructor, InstructorView, Timetable,
    TimetableView, User, UserRole, UserView,
};
use crate::wire::{
    get_half, get_text, get_texts, get_word, get_words, half_bytes, lemma_take_half,
    lemma_take_text, lemma_take_texts, lemma_take_word, lemma_take_words, lemma_texts_body_len,
    lemma_words_body_len, put_half, put_text, put_texts, put_word, put_words, take_half,
    take_text, take_texts, take_word, take_words, text_bytes, texts_bytes, word_bytes,
    words_bytes,
};
use vstd::bytes::*;
use vstd::prelude::*;

verus! {

/// The most bytes a table gives one record.
pub const RECORD_LIMIT: usize = 1024;

/// A kind of record: a value with an id and a byte form.
pub trait Record: View + Sized {
    /// The id a record is kept under.
    spec fn key(model: Self::V) -> u64;

    /// The bytes a record is written as.
    spec fn encoding(model: Self::V) -> Seq<u8>;

    /// The record that bytes stand for, where they stand for one.
    spec fn decoding(bytes: Seq<u8>) -> Option<Self::V>;

    /// A record that fits in [`RECORD_LIMIT`] bytes is read back from its
    /// bytes as it was.
    proof fn lemma_round_trip(model: Self::V)
        requires
            Self::encoding(model).len() <= RECORD_LIMIT,
        ensures
            Self::decoding(Self::encoding(model)) == Some(model),
    ;

    /// The id of this record.
    fn id(&self) -> (id: u64)
        ensures
            id == Self::key(self@),
    ;

    /// The bytes of this record, or `None` where they are more than
    /// [`RECORD_LIMIT`].
    fn encode(&self) -> (bytes: Option<Vec<u8>>)
        ensures
            bytes is Some <==> Self::encoding(self@).len() <= RECORD_LIMIT,
            bytes matches Some(b) ==> b@ == Self::encoding(self@),
    ;

    /// The record the bytes stand for, or `None` where they stand for none.
    fn decode(bytes: &[u8]) -> (record: Option<Self>)
        ensures
            match Self::decoding(bytes@) {
                Some(model) => record matches Some(r) && r@ == model,
                None => record is None,
            },
    ;
}

/// Whether a record fits in the bytes a table gives it.
pub open spec fn fits<E: Record>(model: E::V) -> bool {
    E::encoding(model).len() <= RECORD_LIMIT
}

/// The byte a role is written as.
pub open spec fn role_code(role: UserRole) -> u8 {
    match role {
        UserRole::Student => 0,
        UserRole::Instructor => 1,
        UserRole::Admin => 2,
    }
}

/// A role: one byte.
pub open spec fn role_bytes(role: UserRole) -> Seq<u8> {
    seq![role_code(role)]
}

/// Reads a role off the front: the role and what follows it.
pub open spec fn take_role(s: Seq<u8>) -> Option<(UserRole, Seq<u8>)> {
    if s.len() >= 1 && s[0] <= 2 {
        Some(
            (
                if s[0] == 0 {
                    UserRole::Student
                } else if s[0] == 1 {
                    UserRole::Instructor
                } else {
                    UserRole::Admin
                },
                s.skip(1),
            ),
        )
    } else {
        None
    }
}

/// A role that was written is read back.
pub proof fn lemma_take_role(role: UserRole, tail: Seq<u8>)
    ensures
        take_role(role_bytes(role) + tail) == Some((role, tail)),
{
    assert((role_bytes(role) + tail).skip(1) =~= tail);
}

/// Appends the byte of `role`.
pub fn put_role(out: &mut Vec<u8>, role: UserRole)
    ensures
        final(out)@ == old(out)@ + role_bytes(role),
{
    let code: u8 = match role {
        UserRole::Student => 0,
        UserRole::Instructor => 1,
        UserRole::Admin => 2,
    };
    out.push(code);
    assert(out@ =~= old(out)@ + role_bytes(role));
}

/// Reads a role at `at`: the role and the place after it.
pub fn get_role(bytes: &[u8], at: usize) -> (read: Option<(UserRole, usize)>)
    requires
        at <= bytes@.len(),
    ensures
        match take_role(bytes@.skip(at as int)) {
            Some((role, rest)) => read matches Some((r, next)) && r == role && at <= next
                <= bytes@.len() && rest == bytes@.skip(next as int),
            None => read is None,
        },
{
    if at >= bytes.len() {
        return None;
    }
    assert(bytes@.skip(at as int)[0] == bytes@[at as int]);
    assert(bytes@.skip(at as int).skip(1) =~= bytes@.skip(at + 1));
    let code = bytes[at];
    if code == 0 {
        Some((UserRole::Student, at + 1))
    } else if code == 1 {
        Some((UserRole::Instructor, at + 1))
    } else if code == 2 {
        Some((UserRole::Admin, at + 1))
    } else {
        None
    }
}

impl Record for User {
    open spec fn key(model: UserView) -> u64 {
        model.id
    }

    open spec fn encoding(model: UserView) -> Seq<u8> {
        word_bytes(model.id) + (text_bytes(model.username) + (text_bytes(model.password) + (
        role_bytes(model.role) + (text_bytes(model.email) + word_bytes(model.created_at)))))
    }

    open spec fn decoding(bytes: Seq<u8>) -> Option<UserView> {
        match take_word(bytes) {
            Some((id, s1)) => match take_text(s1) {
                Some((username, s2)) => match take_text(s2) {
                    Some((password, s3)) => match take_role(s3) {
                        Some((role, s4)) => match take_text(s4) {
                            Some((email, s5)) => match take_word(s5) {
                                Some((created_at, s6)) => if s6.len() == 0 {
                                    Some(
                                        UserView { id, username, password, role, email, created_at },
                                    )
                                } else {
                                    None
                                },
                                None => None,
                            },
                            None => None,
                        },
                        None => None,
                    },
                    None => None,
                },
                None => None,
            },
            None => None,
        }
    }

    proof fn lemma_round_trip(model: UserView) {
        let s6 = Seq::<u8>::empty();
        let s5 = word_bytes(model.created_at) + s6;
        let s4 = text_bytes(model.email) + s5;
        let s3 = role_bytes(model.role) + s4;
        let s2 = text_bytes(model.password) + s3;
        let s1 = text_bytes(model.username) + s2;
        lemma_auto_spec_u32_to_from_le_bytes();
        assert(s5 =~= word_bytes(model.created_at));
        assert(Self::encoding(model) =~= word_bytes(model.id) + s1);
        lemma_take_word(model.id, s1);
        lemma_take_text(model.username, s2);
        lemma_take_text(model.password, s3);
        lemma_take_role(model.role, s4);
        lemma_take_text(model.email, s5);
        lemma_take_word(model.created_at, s6);
    }

    fn id(&self) -> (id: u64) {
        self.id
    }

    fn encode(&self) -> (bytes: Option<Vec<u8>>) {
        proof {
            lemma_auto_spec_u32_to_from_le_bytes();
            lemma_auto_spec_u64_to_from_le_bytes();
        }
        let mut out: Vec<u8> = Vec::new();
        put_word(&mut out, self.id);
        if !put_text(&mut out, self.username.as_str()) {
            return None;
        }
        if !put_text(&mut out, self.password.as_str()) {
            return None;
        }
        put_role(&mut out, self.role);
        if !put_text(&mut out, self.email.as_str()) {
            return None;
        }
        put_word(&mut out, self.created_at);
        assert(out@ =~= Self::encoding(self@));
        if out.len() > RECORD_LIMIT {
            return None;
        }
        Some(out)
    }

    fn decode(bytes: &[u8]) -> (record: Option<User>) {
        assert(bytes@.skip(0) =~= bytes@);
        let (id, at) = match get_word(bytes, 0) {
            Some(field) => field,
            None => { return None; },
        };
        let (username, at) = match get_text(bytes, at) {
            Some(field) => field,
            None => { return None; },
        };
        let (password, at) = match get_text(bytes, at) {
            Some(field) => field,
            None => { return None; },
        };
        let (role, at) = match get_role(bytes, at) {
            Some(field) => field,
            None => { return None; },
        };
        let (email, at) = match get_text(bytes, at) {
            Some(field) => field,
            None => { return None; },
        };
        let (created_at, at) = match get_word(bytes, at) {
            Some(field) => field,
            None => { return None; },
        };
        if at != bytes.len() {
            return None;
        }
        Some(User { id, username, password, role, email, created_at })
    }
}

impl Record for Course {
    open spec fn key(model: CourseView) -> u64 {
        model.id
    }

    open spec fn encoding(model: CourseView) -> Seq<u8> {
        word_bytes(model.id) + (text_bytes(model.name) + (half_bytes(model.duration_years) + (
        text_bytes(model.required_equipment) + words_bytes(model.prerequisites))))
    }

    open spec fn decoding(bytes: Seq<u8>) -> Option<CourseView> {
        match take_word(bytes) {
            Some((id, s1)) => match take_text(s1) {
                Some((name, s2)) => match take_half(s2) {
                    Some((duration_years, s3)) => match take_text(s3) {
                        Some((required_equipment, s4)) => match take_words(s4) {
                            Some((prerequisites, s5)) => if s5.len() == 0 {
                                Some(
                                    CourseView {
                                        id,
                                        name,
                                        duration_years,
                                        required_equipment,
                                        prerequisites,
                                    },
                                )
                            } else {
                                None
                            },
                            None => None,
                        },
                        None => None,
                    },
                    None => None,
                },
                None => None,
            },
            None => None,
        }
    }

    proof fn lemma_round_trip(model: CourseView) {
        let s5 = Seq::<u8>::empty();
        let s4 = words_bytes(model.prerequisites) + s5;
        let s3 = text_bytes(model.required_equipment) + s4;
        let s2 = half_bytes(model.duration_years) + s3;
        let s1 = text_bytes(model.name) + s2;
        lemma_auto_spec_u32_to_from_le_bytes();
        lemma_words_body_len(model.prerequisites);
        assert(s4 =~= words_bytes(model.prerequisites));
        assert(Self::encoding(model) =~= word_bytes(model.id) + s1);
        lemma_take_word(model.id, s1);
        lemma_take_text(model.name, s2);
        lemma_take_half(model.duration_years, s3);
        lemma_take_text(model.required_equipment, s4);
        lemma_take_words(model.prerequisites, s5);
    }

    fn id(&self) -> (id: u64) {
        self.id
    }

    fn encode(&self) -> (bytes: Option<Vec<u8>>) {
        proof {
            lemma_auto_spec_u32_to_from_le_bytes();
            lemma_auto_spec_u64_to_from_le_bytes();
            lemma_words_body_len(self.prerequisites@);
        }
        let mut out: Vec<u8> = Vec::new();
        put_word(&mut out, self.id);
        if !put_text(&mut out, self.name.as_str()) {
            return None;
        }
        put_half(&mut out, self.duration_years);
        if !put_text(&mut out, self.required_equipment.as_str()) {
            return None;
        }
        if !put_words(&mut out, &self.prerequisites) {
            return None;
        }
        assert(out@ =~= Self::encoding(self@));
        if out.len() > RECORD_LIMIT {
            return None;
        }
        Some(out)
    }

    fn decode(bytes: &[u8]) -> (record: Option<Course>) {
        assert(bytes@.skip(0) =~= bytes@);
        let (id, at) = match get_word(bytes, 0) {
            Some(field) => field,
            None => { return None; },
        };
        let (name, at) = match get_text(bytes, at) {
            Some(field) => field,
            None => { return None; },
        };
        let (duration_years, at) = match get_half(bytes, at) {
            Some(field) => field,
            None => { return None; },
        };
        let (required_equipment, at) = match get_text(bytes, at) {
            Some(field) => field,
            None => { return None; },
        };
        let (prerequisites, at) = match get_words(bytes, at) {
            Some(field) => field,
            None => { return None; },
        };
        if at != bytes.len() {
            return None;
        }
        Some(Course { id, name, duration_years, required_equipment, prerequisites })
    }
}

impl Record for Instructor {
    open spec fn key(model: InstructorView) -> u64 {
        model.id
    }

    open spec fn encoding(model: InstructorView) -> Seq<u8> {
        word_bytes(model.id) + (text_bytes(model.name) + (texts_bytes(model.availability)
            + texts_bytes(model.preferred_times)))
    }

    open spec fn decoding(bytes: Seq<u8>) -> Option<InstructorView> {
        match take_word(bytes) {
            Some((id, s1)) => match take_text(s1) {
                Some((name, s2)) => match take_texts(s2) {
                    Some((availability, s3)) => match take_texts(s3) {
                        Some((preferred_times, s4)) => if s4.len() == 0 {
                            Some(InstructorView { id, name, availability, preferred_times })
                        } else {
                            None
                        },
                        None => None,
                    },
                    None => None,
                },
                None => None,
            },
            None => None,
        }
    }

    proof fn lemma_round_trip(model: InstructorView) {
        let s4 = Seq::<u8>::empty();
        let s3 = texts_bytes(model.preferred_times) + s4;
        let s2 = texts_bytes(model.availability) + s3;
        let s1 = text_bytes(model.name) + s2;
        lemma_auto_spec_u32_to_from_le_bytes();
        lemma_texts_body_len(model.availability);
        lemma_texts_body_len(model.preferred_times);
        assert(s3 =~= texts_bytes(model.preferred_times));
        assert(Self::encoding(model) =~= word_bytes(model.id) + s1);
        lemma_take_word(model.id, s1);
        lemma_take_text(model.name, s2);
        lemma_take_texts(model.availability, s3);
        lemma_take_texts(model.preferred_times, s4);
    }

    fn id(&self) -> (id: u64) {
        self.id
    }

    fn encode(&self) -> (bytes: Option<Vec<u8>>) {
        proof {
            lemma_auto_spec_u32_to_from_le_bytes();
            lemma_auto_spec_u64_to_from_le_bytes();
            lemma_texts_body_len(self@.availability);
            lemma_texts_body_len(self@.preferred_times);
        }
        let mut out: Vec<u8> = Vec::new();
        put_word(&mut out, self.id);
        if !put_text(&mut out, self.name.as_str()) {
            return None;
        }
        if !put_texts(&mut out, &self.availability) {
            return None;
        }
        if !put_texts(&mut out, &self.preferred_times) {
            return None;
        }
        assert(out@ =~= Self::encoding(self@));
        if out.len() > RECORD_LIMIT {
            return None;
        }
        Some(out)
    }

    fn decode(bytes: &[u8]) -> (record: Option<Instructor>) {
        assert(bytes@.skip(0) =~= bytes@);
        let (id, at) = match get_word(bytes, 0) {
            Some(field) => field,
            None => { return None; },
        };
        let (name, at) = match get_text(bytes, at) {
            Some(field) => field,
            None => { return None; },
        };
        let (availability, at) = match get_texts(bytes, at) {
            Some(field) => field,
            None => { return None; },
        };
        let (preferred_times, at) = match get_texts(bytes, at) {
            Some(field) => field,
            None => { return None; },
        };
        if at != bytes.len() {
            return None;
        }
        Some(Instructor { id, name, availability, preferred_times })
    }
}

impl Record for Classroom {
    open spec fn key(model: ClassroomView) -> u64 {
        model.id
    }

    open spec fn encoding(model: ClassroomView) -> Seq<u8> {
        word_bytes(model.id) + (text_bytes(model.name) + (half_bytes(model.capacity) + text_bytes(
            model.equipment,
        )))
    }

    open spec fn decoding(bytes: Seq<u8>) -> Option<ClassroomView> {
        match take_word(bytes) {
            Some((id, s1)) => match take_text(s1) {
                Some((name, s2)) => match take_half(s2) {
                    Some((capacity, s3)) => match take_text(s3) {
                        Some((equipment, s4)) => if s4.len() == 0 {
                            Some(ClassroomView { id, name, capacity, equipment })
                        } else {
                            None
                        },
                        None => None,
                    },
                    None => None,
                },
                None => None,
            },
            None => None,
        }
    }

    proof fn lemma_round_trip(model: ClassroomView) {
        let s4 = Seq::<u8>::empty();
        let s3 = text_bytes(model.equipment) + s4;
        let s2 = half_bytes(model.capacity) + s3;
        let s1 = text_bytes(model.name) + s2;
        lemma_auto_spec_u32_to_from_le_bytes();
        assert(s3 =~= text_bytes(model.equipment));
        assert(Self::encoding(model) =~= word_bytes(model.id) + s1);
        lemma_take_word(model.id, s1);
        lemma_take_text(model.name, s2);
        lemma_take_half(model.capacity, s3);
        lemma_take_text(model.equipment, s4);
    }

    fn id(&self) -> (id: u64) {
        self.id
    }

    fn encode(&self) -> (bytes: Option<Vec<u8>>) {
        proof {
            lemma_auto_spec_u32_to_from_le_bytes();
            lemma_auto_spec_u64_to_from_le_bytes();
        }
        let mut out: Vec<u8> = Vec::new();
        put_word(&mut out, self.id);
        if !put_text(&mut out, self.name.as_str()) {
            return None;
        }
        put_half(&mut out, self.capacity);
        if !put_text(&mut out, self.equipment.as_str()) {
            return None;
        }
        assert(out@ =~= Self::encoding(self@));
        if out.len() > RECORD_LIMIT {
            return None;
        }
        Some(out)
    }

    fn decode(bytes: &[u8]) -> (record: Option<Classroom>) {
        assert(bytes@.skip(0) =~= bytes@);
        let (id, at) = match get_word(bytes, 0) {
            Some(field) => field,
            None => { return None; },
        };
        let (name, at) = match get_text(bytes, at) {
            Some(field) => field,
            None => { return None; },
        };
        let (capacity, at) = match get_half(bytes, at) {
            Some(field) => field,
            None => { return None; },
        };
        let (equipment, at) = match get_text(bytes, at) {
            Some(field) => field,
            None => { return None; },
        };
        if at != bytes.len() {
            return None;
        }
        Some(Classroom { id, name, capacity, equipment })
    }
}

impl Record for Timetable {
    open spec fn key(model: TimetableView) -> u64 {
        model.id
    }

    open spec fn encoding(model: TimetableView) -> Seq<u8> {
        word_bytes(model.id) + (word_bytes(model.course_id) + (word_bytes(model.instructor_id) + (
        word_bytes(model.classroom_id) + text_bytes(model.time_slot))))
    }

    open spec fn decoding(bytes: Seq<u8>) -> Option<TimetableView> {
        match take_word(bytes) {
            Some((id, s1)) => match take_word(s1) {
                Some((course_id, s2)) => match take_word(s2) {
                    Some((instructor_id, s3)) => match take_word(s3) {
                        Some((classroom_id, s4)) => match take_text(s4) {
                            Some((time_slot, s5)) => if s5.len() == 0 {
                                Some(
                                    TimetableView {
                                        id,
                                        course_id,
                                        instructor_id,
                                        classroom_id,
                                        time_slot,
                                    },
                                )
                            } else {
                                None
                            },
                            None => None,
                        },
                        None => None,
                    },
                    None => None,
                },
                None => None,
            },
            None => None,
        }
    }

    proof fn lemma_round_trip(model: TimetableView) {
        let s5 = Seq::<u8>::empty();
        let s4 = text_bytes(model.time_slot) + s5;
        let s3 = word_bytes(model.classroom_id) + s4;
        let s2 = word_bytes(model.instructor_id) + s3;
        let s1 = word_bytes(model.course_id) + s2;
        lemma_auto_spec_u32_to_from_le_bytes();
        assert(s4 =~= text_bytes(model.time_slot));
        assert(Self::encoding(model) =~= word_bytes(model.id) + s1);
        lemma_take_word(model.id, s1);
        lemma_take_word(model.course_id, s2);
        lemma_take_word(model.instructor_id, s3);
        lemma_take_word(model.classroom_id, s4);
        lemma_take_text(model.time_slot, s5);
    }

    fn id(&self) -> (id: u64) {
        self.id
    }

    fn encode(&self) -> (bytes: Option<Vec<u8>>) {
        proof {
            lemma_auto_spec_u32_to_from_le_bytes();
            lemma_auto_spec_u64_to_from_le_bytes();
        }
        let mut out: Vec<u8> = Vec::new();
        put_word(&mut out, self.id);
        put_word(&mut out, self.course_id);
        put_word(&mut out, self.instructor_id);
        put_word(&mut out, self.classroom_id);
        if !put_text(&mut out, self.time_slot.as_str()) {
            return None;
        }
        assert(out@ =~= Self::encoding(self@));
        if out.len() > RECORD_LIMIT {
            return None;
        }
        Some(out)
    }

    fn decode(bytes: &[u8]) -> (record: Option<Timetable>) {
        assert(bytes@.skip(0) =~= bytes@);
        let (id, at) = match get_word(bytes, 0) {
            Some(field) => field,
            None => { return None; },
        };
        let (course_id, at) = match get_word(bytes, at) {
            Some(field) => field,
            None => { return None; },
        };
        let (instructor_id, at) = match get_word(bytes, at) {
            Some(field) => field,
            None => { return None; },
        };
        let (classroom_id, at) = match get_word(bytes, at) {
            Some(field) => field,
            None => { return None; },
        };
        let (time_slot, at) = match get_text(bytes, at) {
            Some(field) => field,
            None => { return None; },
        };
        if at != bytes.len() {
            return None;
        }
        Some(Timetable { id, course_id, instructor_id, classroom_id, time_slot })
    }
}

} // verus!
