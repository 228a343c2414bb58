use campus_store::boot::{
    cell_head_opens, is_marked, manager_head_opens, map_head_opens, HEAD_BYTES, PAGE_BYTES,
};
use campus_store::error::StoreError;
use campus_store::records::{
    ClassroomPayload, CoursePayload, InstructorPayload, TimetablePayload, UserPayload, UserRole,
};
use campus_store::store::Store;
use ic_stable_structures::memory_manager::{MemoryId, MemoryManager};
use ic_stable_structures::{Cell, StableBTreeMap, VectorMemory};

fn head(memory: &VectorMemory) -> Vec<u8> {
    memory.borrow()[..HEAD_BYTES].to_vec()
}

fn user(name: &str) -> UserPayload {
    UserPayload {
        username: name.to_string(),
        password: "long enough".to_string(),
        email: format!("{name}@example.org"),
        role: UserRole::Student,
    }
}

#[test]
fn head_is_sixty_four_bytes_of_a_page() {
    assert_eq!(HEAD_BYTES, 64);
    assert_eq!(PAGE_BYTES, 65536);
}

#[test]
fn memory_without_a_page_can_be_opened_as_anything() {
    assert!(manager_head_opens(&[]));
    assert!(map_head_opens(&[]));
    assert!(cell_head_opens(&[]));
}

#[test]
fn memory_without_a_mark_can_be_opened_as_anything() {
    let blank = [0u8; 64];
    assert!(manager_head_opens(&blank));
    assert!(map_head_opens(&blank));
    assert!(cell_head_opens(&blank));
}

#[test]
fn mark_is_found_where_it_stands() {
    let mut bytes = [0u8; 64];
    bytes[52..55].copy_from_slice(b"BTA");
    assert!(is_marked(&bytes, 52, b'B', b'T', b'A'));
    assert!(!is_marked(&bytes, 51, b'B', b'T', b'A'));
    assert!(!is_marked(&bytes, 0, b'B', b'T', b'A'));
    assert!(!is_marked(&bytes[..55], 52, b'B', b'T', b'A'));
    assert!(!is_marked(&bytes, 64, 0, 0, 0));
}

#[test]
fn manager_written_by_the_crate_can_be_opened() {
    let memory = VectorMemory::default();
    let manager = MemoryManager::init(memory.clone());
    let _region = manager.get(MemoryId::new(0));
    let written = head(&memory);
    assert_eq!(&written[..4], b"MGR\x01");
    assert!(manager_head_opens(&written));
}

#[test]
fn manager_of_another_version_cannot_be_opened() {
    let mut bytes = [0u8; 64];
    bytes[..4].copy_from_slice(b"MGR\x02");
    assert!(!manager_head_opens(&bytes));
    bytes[3] = 0;
    assert!(!manager_head_opens(&bytes));
    bytes[3] = 1;
    assert!(manager_head_opens(&bytes));
}

#[test]
fn table_written_by_the_crate_can_be_opened() {
    let memory = VectorMemory::default();
    let mut map: StableBTreeMap<u64, Vec<u8>, VectorMemory> = StableBTreeMap::init(memory.clone());
    assert!(map_head_opens(&head(&memory)));
    map.insert(7, vec![1, 2, 3]);
    let written = head(&memory);
    assert_eq!(&written[..3], b"BTR");
    assert_eq!(&written[52..56], b"BTA\x01");
    assert!(map_head_opens(&written));
}

#[test]
fn table_of_another_layout_cannot_be_opened() {
    let memory = VectorMemory::default();
    let _map: StableBTreeMap<u64, Vec<u8>, VectorMemory> = StableBTreeMap::init(memory.clone());
    let written = head(&memory);
    let mut version = written.clone();
    version[3] = 3;
    assert!(!map_head_opens(&version));
    version[3] = 0;
    assert!(!map_head_opens(&version));
    version[3] = 1;
    assert!(map_head_opens(&version));
    version[3] = 2;
    assert!(map_head_opens(&version));
    let mut allocator = written.clone();
    allocator[54] = b'X';
    assert!(!map_head_opens(&allocator));
    let mut allocator_version = written.clone();
    allocator_version[55] = 2;
    assert!(!map_head_opens(&allocator_version));
    let mut other = written;
    other[0] = b'X';
    assert!(map_head_opens(&other));
}

#[test]
fn cell_written_by_the_crate_can_be_opened() {
    let memory = VectorMemory::default();
    let mut cell = Cell::init(memory.clone(), 0u64);
    cell.set(41);
    let written = head(&memory);
    assert_eq!(&written[..8], b"SCL\x01\x08\x00\x00\x00");
    assert!(cell_head_opens(&written));
}

#[test]
fn cell_of_another_layout_cannot_be_opened() {
    let mut bytes = [0u8; 64];
    bytes[..8].copy_from_slice(b"SCL\x01\x08\x00\x00\x00");
    assert!(cell_head_opens(&bytes));
    bytes[3] = 2;
    assert!(!cell_head_opens(&bytes));
    bytes[3] = 1;
    bytes[4] = 4;
    assert!(!cell_head_opens(&bytes));
    bytes[4] = 8;
    bytes[5] = 1;
    assert!(!cell_head_opens(&bytes));
    bytes[5] = 0;
    bytes[7] = 1;
    assert!(!cell_head_opens(&bytes));
    bytes[7] = 0;
    bytes[0] = b'X';
    bytes[3] = 9;
    assert!(cell_head_opens(&bytes));
}

#[test]
fn first_run_starts_empty_with_the_counter_at_zero() {
    let mut store = Store::init().unwrap();
    assert_eq!(store.get_users(), Err(StoreError::NoUsers));
    assert_eq!(store.get_courses(), Err(StoreError::NoCourses));
    assert_eq!(store.get_instructors(), Err(StoreError::NoInstructors));
    assert_eq!(store.get_classrooms(), Err(StoreError::NoClassrooms));
    assert_eq!(store.get_timetables(), Err(StoreError::NoTimetables));
    assert_eq!(store.next_id(), Ok(0));
}

#[test]
fn reopened_fresh_store_is_still_fresh() {
    let store = Store::init().unwrap();
    let mut again = store.reopen().unwrap();
    assert_eq!(again.get_users(), Err(StoreError::NoUsers));
    assert_eq!(again.get_timetables(), Err(StoreError::NoTimetables));
    assert_eq!(again.next_id(), Ok(0));
}

#[test]
fn reopened_store_keeps_every_record_and_the_counter() {
    let mut store = Store::init().unwrap();
    let ada = store.create_user(user("ada"), 10).unwrap();
    let course = store
        .create_course(CoursePayload {
            name: "Logic".to_string(),
            duration_years: 2,
            required_equipment: "chalk".to_string(),
            prerequisites: vec![9, 8],
        })
        .unwrap();
    let instructor = store
        .create_instructor(InstructorPayload {
            name: "Noether".to_string(),
            availability: vec!["Mon".to_string()],
            preferred_times: vec![],
        })
        .unwrap();
    let classroom = store
        .create_classroom(ClassroomPayload {
            name: "B12".to_string(),
            capacity: 30,
            equipment: String::new(),
        })
        .unwrap();
    let manual = store
        .create_timetable(TimetablePayload {
            course_id: 1,
            instructor_id: 2,
            classroom_id: 3,
            time_slot: "Fri".to_string(),
        })
        .unwrap();
    let eve = store.create_user(user("eve"), 20).unwrap();
    store.delete_user(ada.id).unwrap();

    let mut again = store.reopen().unwrap();
    assert_eq!(again.get_users().unwrap(), vec![eve]);
    assert_eq!(again.get_courses().unwrap(), vec![course]);
    assert_eq!(again.get_instructors().unwrap(), vec![instructor]);
    assert_eq!(again.get_classrooms().unwrap(), vec![classroom]);
    assert_eq!(again.get_timetables().unwrap(), vec![manual.clone()]);
    assert!(again.is_email_unique("ada@example.org"));
    assert!(!again.is_email_unique("eve@example.org"));

    let generated = again.create_auto_timetable().unwrap();
    assert_eq!(generated.len(), 1);
    assert_eq!(generated[0].id, 6);
    let third = again.reopen().unwrap();
    assert_eq!(third.get_timetables().unwrap(), vec![manual, generated[0].clone()]);
}

#[test]
fn reopened_store_with_many_records_keeps_them_in_order() {
    let mut store = Store::init().unwrap();
    let mut expected = Vec::new();
    for number in 0..150 {
        expected.push(store.create_user(user(&format!("user{number}")), number).unwrap());
    }
    let mut again = store.reopen().unwrap();
    assert_eq!(again.get_users().unwrap(), expected);
    assert_eq!(again.next_id(), Ok(150));
}
