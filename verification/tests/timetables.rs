use campus_store::error::StoreError;
use campus_store::records::{
    ClassroomPayload, CoursePayload, InstructorPayload, Timetable, TimetablePayload,
};
use campus_store::store::Store;

fn add_course(store: &mut Store, name: &str) -> u64 {
    store
        .create_course(CoursePayload {
            name: name.to_string(),
            duration_years: 1,
            required_equipment: String::new(),
            prerequisites: vec![],
        })
        .unwrap()
        .id
}

fn add_instructor(store: &mut Store, name: &str) -> u64 {
    store
        .create_instructor(InstructorPayload {
            name: name.to_string(),
            availability: vec!["Mon".to_string()],
            preferred_times: vec![],
        })
        .unwrap()
        .id
}

fn add_classroom(store: &mut Store, name: &str) -> u64 {
    store
        .create_classroom(ClassroomPayload {
            name: name.to_string(),
            capacity: 10,
            equipment: String::new(),
        })
        .unwrap()
        .id
}

fn entry(id: u64, course_id: u64, instructor_id: u64, classroom_id: u64) -> Timetable {
    Timetable { id, course_id, instructor_id, classroom_id, time_slot: "08:00-10:00".to_string() }
}

#[test]
fn generation_without_courses_fails() {
    let mut store = Store::init().unwrap();
    add_instructor(&mut store, "Noether");
    add_classroom(&mut store, "B12");
    assert_eq!(store.generate_timetable(), Err(StoreError::NoCourses));
    assert_eq!(store.create_auto_timetable(), Err(StoreError::NoCourses));
    assert_eq!(store.next_id(), Ok(2));
}

#[test]
fn generation_without_instructors_fails() {
    let mut store = Store::init().unwrap();
    add_course(&mut store, "Logic");
    add_classroom(&mut store, "B12");
    assert_eq!(store.create_auto_timetable(), Err(StoreError::NoInstructors));
    assert_eq!(store.get_timetables(), Err(StoreError::NoTimetables));
}

#[test]
fn generation_without_classrooms_fails() {
    let mut store = Store::init().unwrap();
    add_course(&mut store, "Logic");
    add_instructor(&mut store, "Noether");
    assert_eq!(store.create_auto_timetable(), Err(StoreError::NoClassrooms));
}

#[test]
fn generation_on_empty_store_reports_courses_first() {
    let mut store = Store::init().unwrap();
    assert_eq!(store.create_auto_timetable(), Err(StoreError::NoCourses));
    assert_eq!(store.next_id(), Ok(0));
}

#[test]
fn generation_of_one_triple_makes_one_entry() {
    let mut store = Store::init().unwrap();
    let course = add_course(&mut store, "Logic");
    let instructor = add_instructor(&mut store, "Noether");
    let classroom = add_classroom(&mut store, "B12");
    let created = store.create_auto_timetable().unwrap();
    assert_eq!(created, vec![entry(3, course, instructor, classroom)]);
    assert_eq!(store.get_timetables().unwrap(), created);
}

#[test]
fn generation_makes_the_product_in_order() {
    let mut store = Store::init().unwrap();
    let c0 = add_course(&mut store, "Logic");
    let i0 = add_instructor(&mut store, "Noether");
    let r0 = add_classroom(&mut store, "B12");
    let c1 = add_course(&mut store, "Sets");
    let i1 = add_instructor(&mut store, "Hilbert");
    let r1 = add_classroom(&mut store, "B13");
    let i2 = add_instructor(&mut store, "Gauss");
    assert_eq!((c0, i0, r0, c1, i1, r1, i2), (0, 1, 2, 3, 4, 5, 6));
    let created = store.create_auto_timetable().unwrap();
    let expected = vec![
        entry(7, c0, i0, r0),
        entry(8, c0, i0, r1),
        entry(9, c0, i1, r0),
        entry(10, c0, i1, r1),
        entry(11, c0, i2, r0),
        entry(12, c0, i2, r1),
        entry(13, c1, i0, r0),
        entry(14, c1, i0, r1),
        entry(15, c1, i1, r0),
        entry(16, c1, i1, r1),
        entry(17, c1, i2, r0),
        entry(18, c1, i2, r1),
    ];
    assert_eq!(created, expected);
    assert_eq!(store.get_timetables().unwrap(), expected);
    assert_eq!(store.next_id(), Ok(19));
}

#[test]
fn generating_again_appends_the_product_once_more() {
    let mut store = Store::init().unwrap();
    for name in ["Logic", "Sets"] {
        add_course(&mut store, name);
    }
    for name in ["Noether", "Hilbert", "Gauss"] {
        add_instructor(&mut store, name);
    }
    for name in ["B12", "B13"] {
        add_classroom(&mut store, name);
    }
    let first = store.create_auto_timetable().unwrap();
    let second = store.create_auto_timetable().unwrap();
    assert_eq!(first.len(), 12);
    assert_eq!(second.len(), 12);
    for (earlier, later) in first.iter().zip(second.iter()) {
        assert_eq!(later.id, earlier.id + 12);
        assert_eq!(later.course_id, earlier.course_id);
        assert_eq!(later.instructor_id, earlier.instructor_id);
        assert_eq!(later.classroom_id, earlier.classroom_id);
        assert_eq!(later.time_slot, "08:00-10:00");
    }
    let kept = store.get_timetables().unwrap();
    assert_eq!(kept.len(), 24);
    let mut all = first.clone();
    all.extend(second);
    assert_eq!(kept, all);
    let mut ids: Vec<u64> = kept.iter().map(|timetable| timetable.id).collect();
    ids.dedup();
    assert_eq!(ids.len(), 24);
}

#[test]
fn generate_timetable_issues_ids_and_keeps_nothing() {
    let mut store = Store::init().unwrap();
    let course = add_course(&mut store, "Logic");
    let instructor = add_instructor(&mut store, "Noether");
    let one = add_classroom(&mut store, "B12");
    let two = add_classroom(&mut store, "B13");
    let generated = store.generate_timetable().unwrap();
    assert_eq!(
        generated,
        vec![entry(4, course, instructor, one), entry(5, course, instructor, two)]
    );
    assert_eq!(store.get_timetables(), Err(StoreError::NoTimetables));
    assert_eq!(store.next_id(), Ok(6));
}

#[test]
fn generation_leaves_earlier_entries_alone() {
    let mut store = Store::init().unwrap();
    let manual = store
        .create_timetable(TimetablePayload {
            course_id: 70,
            instructor_id: 71,
            classroom_id: 72,
            time_slot: "Fri 14-16".to_string(),
        })
        .unwrap();
    let course = add_course(&mut store, "Logic");
    let instructor = add_instructor(&mut store, "Noether");
    let classroom = add_classroom(&mut store, "B12");
    let created = store.create_auto_timetable().unwrap();
    assert_eq!(created, vec![entry(4, course, instructor, classroom)]);
    assert_eq!(store.get_timetables().unwrap(), vec![manual, entry(4, course, instructor, classroom)]);
}

#[test]
fn generation_does_not_look_at_availability_or_capacity() {
    let mut store = Store::init().unwrap();
    add_course(&mut store, "Logic");
    store
        .create_instructor(InstructorPayload {
            name: "Noether".to_string(),
            availability: vec!["Sun 22-24".to_string()],
            preferred_times: vec!["never".to_string()],
        })
        .unwrap();
    store
        .create_classroom(ClassroomPayload {
            name: "closet".to_string(),
            capacity: 1,
            equipment: String::new(),
        })
        .unwrap();
    let created = store.create_auto_timetable().unwrap();
    assert_eq!(created.len(), 1);
    assert_eq!(created[0].time_slot, "08:00-10:00");
}
