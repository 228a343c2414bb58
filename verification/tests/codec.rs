use campus_store::codec::{get_role, put_role, Record, RECORD_LIMIT};
use campus_store::records::{Classroom, Course, Instructor, Timetable, User, UserRole};
use campus_store::wire::{
    get_half, get_text, get_texts, get_word, get_words, put_half, put_text, put_texts, put_word,
    put_words, FIELD_LIMIT,
};

fn user() -> User {
    User {
        id: 258,
        username: "ada".to_string(),
        password: "pässword".to_string(),
        role: UserRole::Instructor,
        email: "ada@example.org".to_string(),
        created_at: 1_700_000_000_000_000_000,
    }
}

#[test]
fn record_limit_is_1024_bytes() {
    assert_eq!(RECORD_LIMIT, 1024);
    assert_eq!(FIELD_LIMIT, 1024);
}

#[test]
fn timetable_is_written_field_by_field() {
    let timetable = Timetable {
        id: 1,
        course_id: 2,
        instructor_id: 0x0102,
        classroom_id: u64::MAX,
        time_slot: "xy".to_string(),
    };
    let mut expected = vec![1u8, 0, 0, 0, 0, 0, 0, 0];
    expected.extend([2u8, 0, 0, 0, 0, 0, 0, 0]);
    expected.extend([2u8, 1, 0, 0, 0, 0, 0, 0]);
    expected.extend([255u8; 8]);
    expected.extend([2u8, 0, 0, 0]);
    expected.extend([b'x', b'y']);
    assert_eq!(timetable.encode(), Some(expected));
}

#[test]
fn user_is_written_field_by_field() {
    let user = User {
        id: 3,
        username: "a".to_string(),
        password: "ß".to_string(),
        role: UserRole::Admin,
        email: "".to_string(),
        created_at: 256,
    };
    let mut expected = vec![3u8, 0, 0, 0, 0, 0, 0, 0];
    expected.extend([1u8, 0, 0, 0, b'a']);
    expected.extend([2u8, 0, 0, 0, 0xC3, 0x9F]);
    expected.extend([2u8]);
    expected.extend([0u8, 0, 0, 0]);
    expected.extend([0u8, 1, 0, 0, 0, 0, 0, 0]);
    assert_eq!(user.encode(), Some(expected));
}

#[test]
fn user_round_trips() {
    let bytes = user().encode().unwrap();
    let decoded = User::decode(&bytes).unwrap();
    assert_eq!(decoded, user());
    assert_eq!(decoded.encode().unwrap(), bytes);
    assert_eq!(decoded.id(), 258);
}

#[test]
fn every_role_round_trips() {
    for role in [UserRole::Student, UserRole::Instructor, UserRole::Admin] {
        let one = User { role, ..user() };
        assert_eq!(User::decode(&one.encode().unwrap()), Some(one));
    }
}

#[test]
fn course_round_trips() {
    let course = Course {
        id: 9,
        name: "Logic".to_string(),
        duration_years: 4,
        required_equipment: "chalk".to_string(),
        prerequisites: vec![3, 1, 2, u64::MAX],
    };
    let bytes = course.encode().unwrap();
    assert_eq!(bytes.len(), 8 + (4 + 5) + 4 + (4 + 5) + (4 + 4 * 8));
    let decoded = Course::decode(&bytes).unwrap();
    assert_eq!(decoded, course);
    assert_eq!(decoded.encode().unwrap(), bytes);
}

#[test]
fn instructor_round_trips() {
    let instructor = Instructor {
        id: 10,
        name: "Noether".to_string(),
        availability: vec!["Mon".to_string(), "".to_string(), "Đi".to_string()],
        preferred_times: vec![],
    };
    let bytes = instructor.encode().unwrap();
    let decoded = Instructor::decode(&bytes).unwrap();
    assert_eq!(decoded, instructor);
    assert_eq!(decoded.encode().unwrap(), bytes);
}

#[test]
fn classroom_round_trips() {
    let classroom = Classroom {
        id: 11,
        name: "B12".to_string(),
        capacity: u32::MAX,
        equipment: "".to_string(),
    };
    let bytes = classroom.encode().unwrap();
    let decoded = Classroom::decode(&bytes).unwrap();
    assert_eq!(decoded, classroom);
    assert_eq!(decoded.encode().unwrap(), bytes);
}

#[test]
fn timetable_round_trips() {
    let timetable = Timetable {
        id: 12,
        course_id: 1,
        instructor_id: 2,
        classroom_id: 3,
        time_slot: "08:00-10:00".to_string(),
    };
    let bytes = timetable.encode().unwrap();
    assert_eq!(bytes.len(), 47);
    let decoded = Timetable::decode(&bytes).unwrap();
    assert_eq!(decoded, timetable);
    assert_eq!(decoded.encode().unwrap(), bytes);
}

#[test]
fn record_over_the_limit_has_no_bytes() {
    let long = User { username: "u".repeat(1024), ..user() };
    assert_eq!(long.encode(), None);
    let many = Course {
        id: 0,
        name: String::new(),
        duration_years: 1,
        required_equipment: String::new(),
        prerequisites: vec![0; 126],
    };
    assert_eq!(many.encode(), None);
    let fewer = Course { prerequisites: vec![0; 125], ..many };
    assert_eq!(fewer.encode().unwrap().len(), 1024);
}

#[test]
fn instructor_with_a_long_label_has_no_bytes() {
    let instructor = Instructor {
        id: 1,
        name: "Noether".to_string(),
        availability: vec!["Mon".to_string(), "x".repeat(1025)],
        preferred_times: vec![],
    };
    assert_eq!(instructor.encode(), None);
    let crowded = Instructor {
        id: 1,
        name: "Noether".to_string(),
        availability: vec![String::new(); 1025],
        preferred_times: vec![],
    };
    assert_eq!(crowded.encode(), None);
}

#[test]
fn bytes_that_stop_short_are_no_record() {
    let bytes = user().encode().unwrap();
    for length in 0..bytes.len() {
        assert_eq!(User::decode(&bytes[..length]), None);
    }
}

#[test]
fn bytes_that_go_on_are_no_record() {
    let mut bytes = user().encode().unwrap();
    bytes.push(0);
    assert_eq!(User::decode(&bytes), None);
}

#[test]
fn bytes_with_an_unknown_role_are_no_record() {
    let plain = User { username: "a".to_string(), password: "b".to_string(), ..user() };
    let mut bytes = plain.encode().unwrap();
    let role_at = 8 + 5 + 5;
    assert_eq!(bytes[role_at], 1);
    bytes[role_at] = 3;
    assert_eq!(User::decode(&bytes), None);
}

#[test]
fn bytes_with_a_text_that_is_not_utf8_are_no_record() {
    let plain = Classroom {
        id: 1,
        name: "ab".to_string(),
        capacity: 1,
        equipment: String::new(),
    };
    let mut bytes = plain.encode().unwrap();
    bytes[12] = 0xFF;
    assert_eq!(Classroom::decode(&bytes), None);
    bytes[12] = 0xC3;
    bytes[13] = 0x9F;
    assert_eq!(Classroom::decode(&bytes).unwrap().name, "ß");
}

#[test]
fn bytes_of_one_kind_are_no_record_of_another() {
    let timetable = Timetable {
        id: 12,
        course_id: 1,
        instructor_id: 2,
        classroom_id: 3,
        time_slot: "08:00-10:00".to_string(),
    };
    assert_eq!(User::decode(&timetable.encode().unwrap()), None);
}

#[test]
fn numbers_are_written_little_endian() {
    let mut out = vec![9u8];
    put_word(&mut out, 0x0807_0605_0403_0201);
    put_half(&mut out, 0x0D0C_0B0A);
    assert_eq!(out, vec![9, 1, 2, 3, 4, 5, 6, 7, 8, 0x0A, 0x0B, 0x0C, 0x0D]);
    assert_eq!(get_word(&out, 1), Some((0x0807_0605_0403_0201, 9)));
    assert_eq!(get_half(&out, 9), Some((0x0D0C_0B0A, 13)));
    assert_eq!(get_half(&out, 10), None);
    assert_eq!(get_word(&out, 6), None);
    assert_eq!(get_half(&out, 13), None);
}

#[test]
fn text_is_written_with_its_byte_length() {
    let mut out = Vec::new();
    assert!(put_text(&mut out, "aß"));
    assert_eq!(out, vec![3, 0, 0, 0, b'a', 0xC3, 0x9F]);
    assert_eq!(get_text(&out, 0), Some(("aß".to_string(), 7)));
    assert_eq!(get_text(&out[..6], 0), None);
}

#[test]
fn text_over_the_field_limit_is_not_written() {
    let mut out = vec![1u8, 2];
    assert!(!put_text(&mut out, &"x".repeat(1025)));
    assert_eq!(out, vec![1, 2]);
    assert!(put_text(&mut out, &"x".repeat(1024)));
    assert_eq!(out.len(), 2 + 4 + 1024);
}

#[test]
fn lists_are_written_with_their_length() {
    let mut out = Vec::new();
    assert!(put_words(&mut out, &vec![1, 2]));
    assert_eq!(out, vec![2, 0, 0, 0, 1, 0, 0, 0, 0, 0, 0, 0, 2, 0, 0, 0, 0, 0, 0, 0]);
    assert_eq!(get_words(&out, 0), Some((vec![1, 2], 20)));
    assert_eq!(get_words(&out[..19], 0), None);
    let mut texts = Vec::new();
    assert!(put_texts(&mut texts, &vec!["a".to_string(), String::new()]));
    assert_eq!(texts, vec![2, 0, 0, 0, 1, 0, 0, 0, b'a', 0, 0, 0, 0]);
    assert_eq!(get_texts(&texts, 0), Some((vec!["a".to_string(), String::new()], 13)));
    assert_eq!(get_texts(&texts[..12], 0), None);
}

#[test]
fn list_over_the_field_limit_is_not_written() {
    let mut out = vec![7u8];
    assert!(!put_words(&mut out, &vec![0; 1025]));
    assert_eq!(out, vec![7]);
    assert!(!put_texts(&mut out, &vec![String::new(); 1025]));
}

#[test]
fn list_that_claims_more_items_than_follow_is_not_read() {
    let bytes = vec![0xFF, 0xFF, 0xFF, 0xFF, 1, 0, 0, 0, 0, 0, 0, 0];
    assert_eq!(get_words(&bytes, 0), None);
    assert_eq!(get_texts(&bytes, 0), None);
}

#[test]
fn roles_are_written_as_one_byte() {
    let mut out = Vec::new();
    put_role(&mut out, UserRole::Student);
    put_role(&mut out, UserRole::Instructor);
    put_role(&mut out, UserRole::Admin);
    assert_eq!(out, vec![0, 1, 2]);
    assert_eq!(get_role(&out, 0), Some((UserRole::Student, 1)));
    assert_eq!(get_role(&out, 1), Some((UserRole::Instructor, 2)));
    assert_eq!(get_role(&out, 2), Some((UserRole::Admin, 3)));
    assert_eq!(get_role(&out, 3), None);
    assert_eq!(get_role(&[3], 0), None);
}
