//! The store: one counter that issues ids and five tables of records, with
//! the operations that create, list, change and delete them.
//!
//! What each operation does is stated in `model`, as a function on the value
//! of the store; here each is carried out on the durable tables and proved
//! to do just that.

use crate::codec::{fits, Record};
use crate::error::StoreError;
use crate::generator::{
    cross_product, generated_slot, ids_of, lemma_cross_product_at, lemma_generated_fits,
    lemma_with_timetables_keeps, place,
};
use crate::boot::{
    cell_opens, found_entries, found_value, head_of, holds_cell, holds_map, map_opens, open_cell,
    open_pages, open_table,
};
use crate::pages::{
    cell_region, cell_value, no_entries, region_bytes, region_number, table_entries,
    table_region, Disk, IdCell, Region, Table,
};
use crate::model::{
    admission_refusal, agrees, agrees_list, email_unused, keyed, StoreView, COUNTER_START,
};
use crate::pattern::{validate_email, validate_password};
use crate::records::{
    ChangeUserRolePayload, Classroom, ClassroomPayload, Course, CoursePayload, Instructor,
    InstructorPayload, Timetable, TimetablePayload, TimetableView, User, UserPayload,
};
use crate::table::{
    fetch, holds_records, inspect, keys_below, lemma_lists_records, lemma_records_insert,
    lemma_records_remove, lists_records, load_all, put, records, views_of,
};
use vstd::prelude::*;

verus! {

/// The region of the durable pages that holds the id counter.
pub const COUNTER_REGION: u8 = 0;

/// The region that holds the course table.
pub const COURSE_REGION: u8 = 1;

/// The region that holds the instructor table.
pub const INSTRUCTOR_REGION: u8 = 2;

/// The region that holds the classroom table.
pub const CLASSROOM_REGION: u8 = 3;

/// The region that holds the timetable table.
pub const TIMETABLE_REGION: u8 = 4;

/// The region that holds the user table.
pub const USER_REGION: u8 = 5;

/// The regions of a store in the order counter, courses, instructors,
/// classrooms, timetables, users: six different ones.
pub open spec fn standard_layout() -> Seq<u8> {
    seq![
        COUNTER_REGION,
        COURSE_REGION,
        INSTRUCTOR_REGION,
        CLASSROOM_REGION,
        TIMETABLE_REGION,
        USER_REGION,
    ]
}

/// The store, on its durable pages.
pub struct Store {
    counter: IdCell,
    users: Table,
    courses: Table,
    instructors: Table,
    classrooms: Table,
    timetables: Table,
}

/// Puts a record that passed its rules into its table under the id the
/// counter issues for it; nothing changes where it is refused.
fn enter_record<E: Record>(counter: &mut IdCell, table: &mut Table, record: E) -> (admitted: Result<
    E,
    StoreError,
>)
    requires
        E::key(record@) == cell_value(*old(counter)),
    ensures
        match admission_refusal::<E>(record@, cell_value(*old(counter))) {
            Some(error) => admitted == Err::<E, StoreError>(error) && *final(counter) == *old(
                counter,
            ) && *final(table) == *old(table),
            None => admitted == Ok::<E, StoreError>(record) && cell_value(*final(counter))
                == cell_value(*old(counter)) + 1 && table_entries(*final(table)) == table_entries(
                *old(table),
            ).insert(E::key(record@), E::encoding(record@)),
        },
        cell_region(*final(counter)) == cell_region(*old(counter)),
        table_region(*final(table)) == table_region(*old(table)),
{
    let bytes = match record.encode() {
        Some(bytes) => bytes,
        None => { return Err(StoreError::EntityTooLarge); },
    };
    let next = counter.get();
    if next == u64::MAX {
        return Err(StoreError::IdsExhausted);
    }
    let id = counter.set(next + 1);
    table.insert(id, bytes);
    Ok(record)
}

impl View for Store {
    type V = StoreView;

    closed spec fn view(&self) -> StoreView {
        StoreView {
            counter: cell_value(self.counter),
            users: records::<User>(table_entries(self.users)),
            courses: records::<Course>(table_entries(self.courses)),
            instructors: records::<Instructor>(table_entries(self.instructors)),
            classrooms: records::<Classroom>(table_entries(self.classrooms)),
            timetables: records::<Timetable>(table_entries(self.timetables)),
        }
    }
}

/// The entries of one table of a well-formed store.
pub open spec fn sound<E: Record>(entries: Map<u64, Seq<u8>>, limit: u64) -> bool {
    &&& entries.dom().finite()
    &&& holds_records::<E>(entries)
    &&& keys_below(entries, limit)
}

/// A table whose entries are sound is keyed.
pub proof fn lemma_sound_is_keyed<E: Record>(entries: Map<u64, Seq<u8>>, limit: u64)
    requires
        sound::<E>(entries, limit),
    ensures
        keyed::<E>(records::<E>(entries), limit),
{
    assert(records::<E>(entries).dom() =~= entries.dom());
    assert forall|k: u64| #[trigger] records::<E>(entries).contains_key(k) implies k < limit
        && E::key(records::<E>(entries)[k]) == k && fits::<E>(records::<E>(entries)[k]) by {
        assert(entries.contains_key(k));
    }
}

impl Store {
    /// The regions the counter and the tables live in, in the order counter,
    /// courses, instructors, classrooms, timetables, users.
    pub closed spec fn layout(&self) -> Seq<u8> {
        seq![
            cell_region(self.counter),
            table_region(self.courses),
            table_region(self.instructors),
            table_region(self.classrooms),
            table_region(self.timetables),
            table_region(self.users),
        ]
    }

    /// The counter and the tables live in the six regions of the standard
    /// layout, every table holds nothing but records of its kind that fit,
    /// each under its own id, and no id the counter has yet to issue.
    pub closed spec fn wf(&self) -> bool {
        &&& self.layout() == standard_layout()
        &&& sound::<User>(table_entries(self.users), cell_value(self.counter))
        &&& sound::<Course>(table_entries(self.courses), cell_value(self.counter))
        &&& sound::<Instructor>(table_entries(self.instructors), cell_value(self.counter))
        &&& sound::<Classroom>(table_entries(self.classrooms), cell_value(self.counter))
        &&& sound::<Timetable>(table_entries(self.timetables), cell_value(self.counter))
    }

    /// The value of a well-formed store is well-formed.
    pub proof fn lemma_view_wf(&self)
        requires
            self.wf(),
        ensures
            self@.wf(),
            self.layout() == standard_layout(),
    {
        lemma_sound_is_keyed::<User>(table_entries(self.users), cell_value(self.counter));
        lemma_sound_is_keyed::<Course>(table_entries(self.courses), cell_value(self.counter));
        lemma_sound_is_keyed::<Instructor>(
            table_entries(self.instructors),
            cell_value(self.counter),
        );
        lemma_sound_is_keyed::<Classroom>(table_entries(self.classrooms), cell_value(self.counter));
        lemma_sound_is_keyed::<Timetable>(table_entries(self.timetables), cell_value(self.counter));
    }

    /// Opens the store on the durable memory of this process: the counter
    /// and the five tables, each in its region of the standard layout, as an
    /// earlier run left them. On a first run the tables are empty and the
    /// counter stands at [`COUNTER_START`].
    ///
    /// Nothing is opened that cannot be: the head of the memory and of each
    /// region is looked at first, and what is then found in the tables is
    /// inspected before it is used. Where either fails the regions are
    /// damaged.
    ///
    /// To be called once in a process. Where the durable memory is shared
    /// by every handle on it, as it is in a canister, a second store would
    /// write into the regions of the first.
    pub fn init() -> (opened: Result<Store, StoreError>)
        ensures
            opened matches Ok(store) ==> store.wf() && store.layout() == standard_layout(),
            opened matches Err(error) ==> error == StoreError::DamagedRegion,
    {
        let pages = match open_pages(Disk::attach()) {
            Ok(pages) => pages,
            Err(error) => { return Err(error); },
        };
        let counter = pages.region(COUNTER_REGION);
        let courses = pages.region(COURSE_REGION);
        let instructors = pages.region(INSTRUCTOR_REGION);
        let classrooms = pages.region(CLASSROOM_REGION);
        let timetables = pages.region(TIMETABLE_REGION);
        let users = pages.region(USER_REGION);
        Store::open(counter, courses, instructors, classrooms, timetables, users)
    }

    /// Opens the store in six regions, which must be those of the standard
    /// layout: a counter in the first and a table in each of the others.
    ///
    /// A region that holds no structure yet gets a new one: the counter
    /// starts at [`COUNTER_START`] and a table starts empty, so that on six
    /// fresh regions the store is opened, empty and with its counter at the
    /// start. A region that holds a structure is opened with what it holds.
    /// The regions are damaged where a structure cannot be opened or a
    /// table holds something other than records of its kind that fit, each
    /// under its own id and below the counter.
    pub fn open(
        counter: Region,
        courses: Region,
        instructors: Region,
        classrooms: Region,
        timetables: Region,
        users: Region,
    ) -> (opened: Result<Store, StoreError>)
        requires
            region_number(counter) == COUNTER_REGION,
            region_number(courses) == COURSE_REGION,
            region_number(instructors) == INSTRUCTOR_REGION,
            region_number(classrooms) == CLASSROOM_REGION,
            region_number(timetables) == TIMETABLE_REGION,
            region_number(users) == USER_REGION,
        ensures
            opened is Ok <==> {
                let limit = found_value(region_bytes(counter), COUNTER_START);
                &&& cell_opens(head_of(region_bytes(counter)))
                &&& map_opens(head_of(region_bytes(courses)))
                &&& map_opens(head_of(region_bytes(instructors)))
                &&& map_opens(head_of(region_bytes(classrooms)))
                &&& map_opens(head_of(region_bytes(timetables)))
                &&& map_opens(head_of(region_bytes(users)))
                &&& sound::<Course>(found_entries(region_bytes(courses)), limit)
                &&& sound::<Instructor>(found_entries(region_bytes(instructors)), limit)
                &&& sound::<Classroom>(found_entries(region_bytes(classrooms)), limit)
                &&& sound::<Timetable>(found_entries(region_bytes(timetables)), limit)
                &&& sound::<User>(found_entries(region_bytes(users)), limit)
            },
            opened matches Ok(store) ==> {
                &&& store.wf()
                &&& store.layout() == standard_layout()
                &&& store@.counter == found_value(region_bytes(counter), COUNTER_START)
                &&& store@.courses == records::<Course>(found_entries(region_bytes(courses)))
                &&& store@.instructors == records::<Instructor>(
                    found_entries(region_bytes(instructors)),
                )
                &&& store@.classrooms == records::<Classroom>(
                    found_entries(region_bytes(classrooms)),
                )
                &&& store@.timetables == records::<Timetable>(
                    found_entries(region_bytes(timetables)),
                )
                &&& store@.users == records::<User>(found_entries(region_bytes(users)))
            },
            !holds_cell(head_of(region_bytes(counter))) && !holds_map(
                head_of(region_bytes(courses)),
            ) && !holds_map(head_of(region_bytes(instructors))) && !holds_map(
                head_of(region_bytes(classrooms)),
            ) && !holds_map(head_of(region_bytes(timetables))) && !holds_map(
                head_of(region_bytes(users)),
            ) ==> opened is Ok && opened.unwrap()@ == StoreView::fresh(),
            opened matches Err(error) ==> error == StoreError::DamagedRegion,
    {
        proof {
            assert(records::<Course>(no_entries()) =~= Map::empty());
            assert(records::<Instructor>(no_entries()) =~= Map::empty());
            assert(records::<Classroom>(no_entries()) =~= Map::empty());
            assert(records::<Timetable>(no_entries()) =~= Map::empty());
            assert(records::<User>(no_entries()) =~= Map::empty());
        }
        let counter = match open_cell(counter, COUNTER_START) {
            Ok(cell) => cell,
            Err(error) => { return Err(error); },
        };
        let courses = match open_table(courses) {
            Ok(table) => table,
            Err(error) => { return Err(error); },
        };
        let instructors = match open_table(instructors) {
            Ok(table) => table,
            Err(error) => { return Err(error); },
        };
        let classrooms = match open_table(classrooms) {
            Ok(table) => table,
            Err(error) => { return Err(error); },
        };
        let timetables = match open_table(timetables) {
            Ok(table) => table,
            Err(error) => { return Err(error); },
        };
        let users = match open_table(users) {
            Ok(table) => table,
            Err(error) => { return Err(error); },
        };
        Store::assemble(counter, users, courses, instructors, classrooms, timetables)
    }

    /// Makes a store of a counter and five tables if they go together: they
    /// live in the six regions of the standard layout, every table holds
    /// only records of its kind that fit, each under its own id, and no id
    /// that the counter has yet to issue.
    pub fn assemble(
        counter: IdCell,
        users: Table,
        courses: Table,
        instructors: Table,
        classrooms: Table,
        timetables: Table,
    ) -> (assembled: Result<Store, StoreError>)
        requires
            cell_region(counter) == COUNTER_REGION,
            table_region(courses) == COURSE_REGION,
            table_region(instructors) == INSTRUCTOR_REGION,
            table_region(classrooms) == CLASSROOM_REGION,
            table_region(timetables) == TIMETABLE_REGION,
            table_region(users) == USER_REGION,
        ensures
            assembled is Ok <==> sound::<User>(table_entries(users), cell_value(counter))
                && sound::<Course>(table_entries(courses), cell_value(counter))
                && sound::<Instructor>(table_entries(instructors), cell_value(counter))
                && sound::<Classroom>(table_entries(classrooms), cell_value(counter))
                && sound::<Timetable>(table_entries(timetables), cell_value(counter)),
            assembled matches Ok(store) ==> store.wf() && store.layout() == standard_layout()
                && store@.counter == cell_value(counter) && store@.users == records::<User>(
                table_entries(users),
            ) && store@.courses == records::<Course>(table_entries(courses))
                && store@.instructors == records::<Instructor>(table_entries(instructors))
                && store@.classrooms == records::<Classroom>(table_entries(classrooms))
                && store@.timetables == records::<Timetable>(table_entries(timetables)),
            assembled matches Err(error) ==> error == StoreError::DamagedRegion,
    {
        let limit = counter.get();
        let users_sound = inspect::<User>(&users, limit);
        let courses_sound = inspect::<Course>(&courses, limit);
        let instructors_sound = inspect::<Instructor>(&instructors, limit);
        let classrooms_sound = inspect::<Classroom>(&classrooms, limit);
        let timetables_sound = inspect::<Timetable>(&timetables, limit);
        if users_sound && courses_sound && instructors_sound && classrooms_sound
            && timetables_sound {
            Ok(Store { counter, users, courses, instructors, classrooms, timetables })
        } else {
            Err(StoreError::DamagedRegion)
        }
    }

    /// Closes the store and opens it again in the regions it lives in, as a
    /// new run of the process would. The store that comes back is the store
    /// that went in: every record and the counter are kept.
    pub fn reopen(self) -> (reopened: Result<Store, StoreError>)
        requires
            self.wf(),
        ensures
            reopened matches Ok(store) && store.wf() && store@ == self@,
    {
        let counter = self.counter.into_region();
        let courses = self.courses.into_region();
        let instructors = self.instructors.into_region();
        let classrooms = self.classrooms.into_region();
        let timetables = self.timetables.into_region();
        let users = self.users.into_region();
        Store::open(counter, courses, instructors, classrooms, timetables, users)
    }

    /// Issues the next id: the counter's value, which then goes up by one.
    /// No id is issued once the counter has reached the largest number.
    pub fn next_id(&mut self) -> (issued: Result<u64, StoreError>)
        requires
            old(self).wf(),
        ensures
            final(self).wf(),
            final(self)@ == old(self)@.next_id().0,
            issued == old(self)@.next_id().1,
    {
        let next = self.counter.get();
        if next == u64::MAX {
            return Err(StoreError::IdsExhausted);
        }
        Ok(self.counter.set(next + 1))
    }

    /// Whether no user has the email. The comparison is exact.
    pub fn is_email_unique(&self, email: &str) -> (unique: bool)
        requires
            self.wf(),
        ensures
            unique == email_unused(self@.users, email@),
    {
        let wanted = email.to_owned();
        let users = load_all::<User>(&self.users);
        let mut i: usize = 0;
        while i < users.len()
            invariant
                i <= users@.len(),
                wanted@ == email@,
                lists_records::<User>(users@, self@.users),
                forall|j: int| 0 <= j < i ==> (#[trigger] users@[j]).email@ != email@,
            decreases users@.len() - i,
        {
            if users[i].email == wanted {
                assert(self@.users.contains_key(User::key(users@[i as int]@)));
                return false;
            }
            i += 1;
        }
        assert forall|id: u64| #[trigger] self@.users.contains_key(id) implies self@.users[id].email
            != email@ by {
            let j = choose|j: int| 0 <= j < users@.len() && User::key((#[trigger] users@[j])@) == id;
            assert(self@.users[User::key(users@[j]@)] == users@[j]@);
        }
        true
    }

    /// Creates a user from the payload, with `now` as the time of creation.
    ///
    /// The payload is held against the rules in order: name, password and
    /// email present; the email an address; the email not taken; the
    /// password long enough. Then the user must fit in a record and the
    /// counter must have an id left. On any failure the store is unchanged.
    pub fn create_user(&mut self, payload: UserPayload, now: u64) -> (created: Result<
        User,
        StoreError,
    >)
        requires
            old(self).wf(),
        ensures
            final(self).wf(),
            final(self)@ == old(self)@.create_user(payload@, now).0,
            agrees(created, old(self)@.create_user(payload@, now).1),
    {
        if payload.username.as_str().is_empty() || payload.password.as_str().is_empty()
            || payload.email.as_str().is_empty() {
            return Err(StoreError::MissingUserFields);
        }
        match validate_email(payload.email.as_str()) {
            Ok(()) => {},
            Err(error) => { return Err(error); },
        }
        if !self.is_email_unique(payload.email.as_str()) {
            return Err(StoreError::EmailTaken);
        }
        match validate_password(payload.password.as_str()) {
            Ok(()) => {},
            Err(error) => { return Err(error); },
        }
        let id = self.counter.get();
        let user = User {
            id,
            username: payload.username,
            password: payload.password,
            role: payload.role,
            email: payload.email,
            created_at: now,
        };
        proof {
            if fits::<User>(user@) {
                lemma_records_insert::<User>(table_entries(self.users), user@);
            }
        }
        let admitted = enter_record::<User>(&mut self.counter, &mut self.users, user);
        proof {
            if admitted is Ok {
                assert(self@.users =~= old(self)@.users.insert(id, admitted.unwrap()@));
            }
        }
        admitted
    }

    /// Every user, by ascending id; an error where there is none.
    pub fn get_users(&self) -> (listed: Result<Vec<User>, StoreError>)
        requires
            self.wf(),
        ensures
            agrees_list(listed, self@.get_users()),
            listed matches Ok(users) ==> lists_records::<User>(users@, self@.users),
    {
        let users = load_all::<User>(&self.users);
        proof {
            lemma_lists_records::<User>(users@, self@.users);
        }
        if users.is_empty() {
            Err(StoreError::NoUsers)
        } else {
            Ok(users)
        }
    }

    /// Gives the user with the payload's id the payload's role.
    pub fn change_user_role(&mut self, payload: ChangeUserRolePayload) -> (changed: Result<
        User,
        StoreError,
    >)
        requires
            old(self).wf(),
        ensures
            final(self).wf(),
            final(self)@ == old(self)@.change_user_role(payload.user_id, payload.role).0,
            agrees(changed, old(self)@.change_user_role(payload.user_id, payload.role).1),
    {
        let user = match fetch::<User>(&self.users, payload.user_id) {
            Some(user) => user,
            None => { return Err(StoreError::UserNotFound); },
        };
        let updated = User { role: payload.role, ..user };
        self.replace_user(updated)
    }

    /// Deletes the user with the id.
    pub fn delete_user(&mut self, user_id: u64) -> (deleted: Result<String, StoreError>)
        requires
            old(self).wf(),
        ensures
            final(self).wf(),
            final(self)@ == old(self)@.delete_user(user_id).0,
            agrees(deleted, old(self)@.delete_user(user_id).1),
    {
        proof {
            lemma_records_remove::<User>(table_entries(self.users), user_id);
        }
        match self.users.remove(user_id) {
            Some(_) => Ok("User deleted successfully.".to_owned()),
            None => {
                assert(table_entries(self.users) =~= table_entries(old(self).users));
                Err(StoreError::NoUserToDelete)
            },
        }
    }

    /// Replaces everything but the id and the time of creation of the user
    /// with the id by what the payload holds. The payload is not held
    /// against the rules a new user is.
    pub fn update_user(&mut self, user_id: u64, payload: UserPayload) -> (updated: Result<
        User,
        StoreError,
    >)
        requires
            old(self).wf(),
        ensures
            final(self).wf(),
            final(self)@ == old(self)@.update_user(user_id, payload@).0,
            agrees(updated, old(self)@.update_user(user_id, payload@).1),
    {
        let user = match fetch::<User>(&self.users, user_id) {
            Some(user) => user,
            None => { return Err(StoreError::UserNotFound); },
        };
        let updated = User {
            id: user.id,
            username: payload.username,
            password: payload.password,
            role: payload.role,
            email: payload.email,
            created_at: user.created_at,
        };
        self.replace_user(updated)
    }

    /// Puts a changed user in the place of the one with the same id.
    fn replace_user(&mut self, user: User) -> (replaced: Result<User, StoreError>)
        requires
            old(self).wf(),
            old(self)@.users.contains_key(user.id),
        ensures
            final(self).wf(),
            final(self)@ == old(self)@.replace_user(user@).0,
            agrees(replaced, old(self)@.replace_user(user@).1),
    {
        proof {
            if fits::<User>(user@) {
                lemma_records_insert::<User>(table_entries(self.users), user@);
            }
        }
        if !put::<User>(&mut self.users, &user) {
            return Err(StoreError::EntityTooLarge);
        }
        Ok(user)
    }

    /// Creates a course from the payload: its name must not be empty and
    /// its duration not zero. On any failure the store is unchanged.
    pub fn create_course(&mut self, payload: CoursePayload) -> (created: Result<
        Course,
        StoreError,
    >)
        requires
            old(self).wf(),
        ensures
            final(self).wf(),
            final(self)@ == old(self)@.create_course(payload@).0,
            agrees(created, old(self)@.create_course(payload@).1),
    {
        if payload.name.as_str().is_empty() || payload.duration_years == 0 {
            return Err(StoreError::MissingCourseFields);
        }
        let id = self.counter.get();
        let course = Course {
            id,
            name: payload.name,
            duration_years: payload.duration_years,
            required_equipment: payload.required_equipment,
            prerequisites: payload.prerequisites,
        };
        proof {
            if fits::<Course>(course@) {
                lemma_records_insert::<Course>(table_entries(self.courses), course@);
            }
        }
        let admitted = enter_record::<Course>(&mut self.counter, &mut self.courses, course);
        proof {
            if admitted is Ok {
                assert(self@.courses =~= old(self)@.courses.insert(id, admitted.unwrap()@));
            }
        }
        admitted
    }

    /// Every course, by ascending id; an error where there is none.
    pub fn get_courses(&self) -> (listed: Result<Vec<Course>, StoreError>)
        requires
            self.wf(),
        ensures
            agrees_list(listed, self@.get_courses()),
            listed matches Ok(courses) ==> lists_records::<Course>(courses@, self@.courses),
    {
        let courses = load_all::<Course>(&self.courses);
        proof {
            lemma_lists_records::<Course>(courses@, self@.courses);
        }
        if courses.is_empty() {
            Err(StoreError::NoCourses)
        } else {
            Ok(courses)
        }
    }

    /// Creates an instructor from the payload: the name must not be empty
    /// and the availability must hold a time slot. On any failure the store
    /// is unchanged.
    pub fn create_instructor(&mut self, payload: InstructorPayload) -> (created: Result<
        Instructor,
        StoreError,
    >)
        requires
            old(self).wf(),
        ensures
            final(self).wf(),
            final(self)@ == old(self)@.create_instructor(payload@).0,
            agrees(created, old(self)@.create_instructor(payload@).1),
    {
        if payload.name.as_str().is_empty() || payload.availability.is_empty() {
            return Err(StoreError::MissingInstructorFields);
        }
        let id = self.counter.get();
        let instructor = Instructor {
            id,
            name: payload.name,
            availability: payload.availability,
            preferred_times: payload.preferred_times,
        };
        proof {
            if fits::<Instructor>(instructor@) {
                lemma_records_insert::<Instructor>(table_entries(self.instructors), instructor@);
            }
        }
        let admitted = enter_record::<Instructor>(
            &mut self.counter,
            &mut self.instructors,
            instructor,
        );
        proof {
            if admitted is Ok {
                assert(self@.instructors =~= old(self)@.instructors.insert(
                    id,
                    admitted.unwrap()@,
                ));
            }
        }
        admitted
    }

    /// Every instructor, by ascending id; an error where there is none.
    pub fn get_instructors(&self) -> (listed: Result<Vec<Instructor>, StoreError>)
        requires
            self.wf(),
        ensures
            agrees_list(listed, self@.get_instructors()),
            listed matches Ok(instructors) ==> lists_records::<Instructor>(instructors@, self@.instructors),
    {
        let instructors = load_all::<Instructor>(&self.instructors);
        proof {
            lemma_lists_records::<Instructor>(instructors@, self@.instructors);
        }
        if instructors.is_empty() {
            Err(StoreError::NoInstructors)
        } else {
            Ok(instructors)
        }
    }

    /// Creates a classroom from the payload: its name must not be empty and
    /// its capacity not zero. On any failure the store is unchanged.
    pub fn create_classroom(&mut self, payload: ClassroomPayload) -> (created: Result<
        Classroom,
        StoreError,
    >)
        requires
            old(self).wf(),
        ensures
            final(self).wf(),
            final(self)@ == old(self)@.create_classroom(payload@).0,
            agrees(created, old(self)@.create_classroom(payload@).1),
    {
        if payload.name.as_str().is_empty() || payload.capacity == 0 {
            return Err(StoreError::MissingClassroomFields);
        }
        let id = self.counter.get();
        let classroom = Classroom {
            id,
            name: payload.name,
            capacity: payload.capacity,
            equipment: payload.equipment,
        };
        proof {
            if fits::<Classroom>(classroom@) {
                lemma_records_insert::<Classroom>(table_entries(self.classrooms), classroom@);
            }
        }
        let admitted = enter_record::<Classroom>(&mut self.counter, &mut self.classrooms, classroom);
        proof {
            if admitted is Ok {
                assert(self@.classrooms =~= old(self)@.classrooms.insert(id, admitted.unwrap()@));
            }
        }
        admitted
    }

    /// Every classroom, by ascending id; an error where there is none.
    pub fn get_classrooms(&self) -> (listed: Result<Vec<Classroom>, StoreError>)
        requires
            self.wf(),
        ensures
            agrees_list(listed, self@.get_classrooms()),
            listed matches Ok(classrooms) ==> lists_records::<Classroom>(classrooms@, self@.classrooms),
    {
        let classrooms = load_all::<Classroom>(&self.classrooms);
        proof {
            lemma_lists_records::<Classroom>(classrooms@, self@.classrooms);
        }
        if classrooms.is_empty() {
            Err(StoreError::NoClassrooms)
        } else {
            Ok(classrooms)
        }
    }

    /// Creates a timetable entry from the payload: none of its three ids
    /// may be zero and its time slot must not be empty. The ids are not
    /// looked up. On any failure the store is unchanged.
    pub fn create_timetable(&mut self, payload: TimetablePayload) -> (created: Result<
        Timetable,
        StoreError,
    >)
        requires
            old(self).wf(),
        ensures
            final(self).wf(),
            final(self)@ == old(self)@.create_timetable(payload@).0,
            agrees(created, old(self)@.create_timetable(payload@).1),
    {
        if payload.course_id == 0 || payload.instructor_id == 0 || payload.classroom_id == 0
            || payload.time_slot.as_str().is_empty() {
            return Err(StoreError::MissingTimetableFields);
        }
        let id = self.counter.get();
        let timetable = Timetable {
            id,
            course_id: payload.course_id,
            instructor_id: payload.instructor_id,
            classroom_id: payload.classroom_id,
            time_slot: payload.time_slot,
        };
        proof {
            if fits::<Timetable>(timetable@) {
                lemma_records_insert::<Timetable>(table_entries(self.timetables), timetable@);
            }
        }
        let admitted = enter_record::<Timetable>(&mut self.counter, &mut self.timetables, timetable);
        proof {
            if admitted is Ok {
                assert(self@.timetables =~= old(self)@.timetables.insert(id, admitted.unwrap()@));
            }
        }
        admitted
    }

    /// Every timetable entry, by ascending id; an error where there is none.
    pub fn get_timetables(&self) -> (listed: Result<Vec<Timetable>, StoreError>)
        requires
            self.wf(),
        ensures
            agrees_list(listed, self@.get_timetables()),
            listed matches Ok(timetables) ==> lists_records::<Timetable>(timetables@, self@.timetables),
    {
        let timetables = load_all::<Timetable>(&self.timetables);
        proof {
            lemma_lists_records::<Timetable>(timetables@, self@.timetables);
        }
        if timetables.is_empty() {
            Err(StoreError::NoTimetables)
        } else {
            Ok(timetables)
        }
    }

    /// Makes one timetable entry for every course, instructor and classroom
    /// taken together, courses outermost and classrooms innermost, each at
    /// the same time slot and each under an id of its own, issued in that
    /// order. The entries are returned and not kept.
    ///
    /// Fails, with nothing issued, where a table is empty (courses are
    /// looked at first, then instructors, then classrooms) or the counter
    /// has fewer ids left than there are entries to make.
    pub fn generate_timetable(&mut self) -> (generated: Result<Vec<Timetable>, StoreError>)
        requires
            old(self).wf(),
        ensures
            final(self).wf(),
            final(self)@ == old(self)@.generate_timetable().0,
            agrees_list(generated, old(self)@.generate_timetable().1),
    {
        let courses = match self.get_courses() {
            Ok(courses) => courses,
            Err(error) => { return Err(error); },
        };
        let instructors = match self.get_instructors() {
            Ok(instructors) => instructors,
            Err(error) => { return Err(error); },
        };
        let classrooms = match self.get_classrooms() {
            Ok(classrooms) => classrooms,
            Err(error) => { return Err(error); },
        };
        let ghost start = self@;
        let ghost course_ids = ids_of::<Course>(views_of(courses@));
        let ghost instructor_ids = ids_of::<Instructor>(views_of(instructors@));
        let ghost classroom_ids = ids_of::<Classroom>(views_of(classrooms@));
        let ghost expected = start.generated();
        proof {
            lemma_lists_records::<Course>(courses@, start.courses);
            lemma_lists_records::<Instructor>(instructors@, start.instructors);
            lemma_lists_records::<Classroom>(classrooms@, start.classrooms);
            assert(expected.len() == start.generated_count());
        }
        let first = self.counter.get();
        let rows = match (courses.len() as u64).checked_mul(instructors.len() as u64) {
            Some(rows) => rows,
            None => {
                assert(start.generated_count() > u64::MAX) by (nonlinear_arith)
                    requires
                        start.generated_count() == courses@.len() * instructors@.len()
                            * classrooms@.len(),
                        courses@.len() * instructors@.len() > u64::MAX,
                        classrooms@.len() > 0,
                ;
                return Err(StoreError::IdsExhausted);
            },
        };
        let count = match rows.checked_mul(classrooms.len() as u64) {
            Some(count) => count,
            None => { return Err(StoreError::IdsExhausted); },
        };
        if count > u64::MAX - first {
            return Err(StoreError::IdsExhausted);
        }
        let mut out: Vec<Timetable> = Vec::new();
        let mut c: usize = 0;
        assert(place(0, 0, 0, instructors@.len() as int, classrooms@.len() as int) == 0)
            by (nonlinear_arith);
        while c < courses.len()
            invariant
                c <= courses@.len(),
                out@.len() == place(
                    c as int,
                    0,
                    0,
                    instructors@.len() as int,
                    classrooms@.len() as int,
                ),
                self.wf(),
                generating(self@, start, out@, expected),
                course_ids == ids_of::<Course>(views_of(courses@)),
                instructor_ids == ids_of::<Instructor>(views_of(instructors@)),
                classroom_ids == ids_of::<Classroom>(views_of(classrooms@)),
                expected == cross_product(course_ids, instructor_ids, classroom_ids, start.counter),
            decreases courses@.len() - c,
        {
            let mut i: usize = 0;
            while i < instructors.len()
                invariant
                    c < courses@.len(),
                    i <= instructors@.len(),
                    out@.len() == place(
                        c as int,
                        i as int,
                        0,
                        instructors@.len() as int,
                        classrooms@.len() as int,
                    ),
                    self.wf(),
                    generating(self@, start, out@, expected),
                    course_ids == ids_of::<Course>(views_of(courses@)),
                    instructor_ids == ids_of::<Instructor>(views_of(instructors@)),
                    classroom_ids == ids_of::<Classroom>(views_of(classrooms@)),
                    expected == cross_product(
                        course_ids,
                        instructor_ids,
                        classroom_ids,
                        start.counter,
                    ),
                decreases instructors@.len() - i,
            {
                let mut r: usize = 0;
                while r < classrooms.len()
                    invariant
                        c < courses@.len(),
                        i < instructors@.len(),
                        r <= classrooms@.len(),
                        out@.len() == place(
                            c as int,
                            i as int,
                            r as int,
                            instructors@.len() as int,
                            classrooms@.len() as int,
                        ),
                        self.wf(),
                        generating(self@, start, out@, expected),
                        course_ids == ids_of::<Course>(views_of(courses@)),
                        instructor_ids == ids_of::<Instructor>(views_of(instructors@)),
                        classroom_ids == ids_of::<Classroom>(views_of(classrooms@)),
                        expected == cross_product(
                            course_ids,
                            instructor_ids,
                            classroom_ids,
                            start.counter,
                        ),
                    decreases classrooms@.len() - r,
                {
                    proof {
                        lemma_cross_product_at(
                            course_ids,
                            instructor_ids,
                            classroom_ids,
                            start.counter,
                            c as int,
                            i as int,
                            r as int,
                        );
                    }
                    let id = match self.next_id() {
                        Ok(id) => id,
                        Err(error) => { return Err(error); },
                    };
                    out.push(
                        Timetable {
                            id,
                            course_id: courses[c].id,
                            instructor_id: instructors[i].id,
                            classroom_id: classrooms[r].id,
                            time_slot: "08:00-10:00".to_owned(),
                        },
                    );
                    r += 1;
                }
                assert(place(
                    c as int,
                    i as int,
                    r as int,
                    instructors@.len() as int,
                    classrooms@.len() as int,
                ) == place(
                    c as int,
                    i + 1,
                    0,
                    instructors@.len() as int,
                    classrooms@.len() as int,
                )) by (nonlinear_arith)
                    requires
                        r == classrooms@.len(),
                ;
                i += 1;
            }
            assert(place(
                c as int,
                i as int,
                0,
                instructors@.len() as int,
                classrooms@.len() as int,
            ) == place(c + 1, 0, 0, instructors@.len() as int, classrooms@.len() as int))
                by (nonlinear_arith)
                requires
                    i == instructors@.len(),
            ;
            c += 1;
        }
        assert(out@.len() == expected.len()) by (nonlinear_arith)
            requires
                out@.len() == place(
                    c as int,
                    0,
                    0,
                    instructors@.len() as int,
                    classrooms@.len() as int,
                ),
                c == courses@.len(),
                expected.len() == courses@.len() * instructors@.len() * classrooms@.len(),
        ;
        assert(views_of(out@) =~= expected);
        Ok(out)
    }

    /// Generates the timetable entries as [`Store::generate_timetable`] does
    /// and keeps every one of them in the timetable table. Entries made by
    /// an earlier call are left as they are.
    pub fn create_auto_timetable(&mut self) -> (created: Result<Vec<Timetable>, StoreError>)
        requires
            old(self).wf(),
        ensures
            final(self).wf(),
            final(self)@ == old(self)@.create_auto_timetable().0,
            agrees_list(created, old(self)@.create_auto_timetable().1),
    {
        let timetables = match self.generate_timetable() {
            Ok(timetables) => timetables,
            Err(error) => { return Err(error); },
        };
        let ghost issued = self@;
        let ghost entries = views_of(timetables@);
        proof {
            old(self).lemma_view_wf();
            old(self)@.lemma_generated_len();
            assert forall|k: int| 0 <= k < entries.len() implies (#[trigger] entries[k]).time_slot
                == generated_slot() && entries[k].id < issued.counter by {
                assert(entries[k] == old(self)@.generated()[k]);
            }
        }
        let mut i: usize = 0;
        while i < timetables.len()
            invariant
                i <= timetables@.len(),
                entries == views_of(timetables@),
                self.wf(),
                self@ == issued.with_timetables(entries.take(i as int)),
                forall|k: int|
                    0 <= k < entries.len() ==> (#[trigger] entries[k]).time_slot
                        == generated_slot() && entries[k].id < issued.counter,
            decreases timetables@.len() - i,
        {
            proof {
                assert(entries[i as int] == timetables@[i as int]@);
                lemma_generated_fits(entries[i as int]);
                lemma_records_insert::<Timetable>(table_entries(self.timetables), entries[i as int]);
                assert(entries.take(i + 1).drop_last() =~= entries.take(i as int));
                assert(issued.with_timetables(entries.take(i as int)).counter == issued.counter)
                    by {
                    lemma_with_timetables_keeps(issued, entries.take(i as int));
                }
            }
            if !put::<Timetable>(&mut self.timetables, &timetables[i]) {
                return Err(StoreError::EntityTooLarge);
            }
            i += 1;
        }
        assert(entries.take(i as int) =~= entries);
        Ok(timetables)
    }
}

/// Where the generator stands after it has made the entries of `out`: it
/// has issued one id for each, and each is the entry expected in its place.
spec fn generating(
    now: StoreView,
    start: StoreView,
    out: Seq<Timetable>,
    expected: Seq<TimetableView>,
) -> bool {
    &&& now == start.issue(out.len())
    &&& start.counter + expected.len() <= u64::MAX
    &&& out.len() <= expected.len()
    &&& forall|k: int| 0 <= k < out.len() ==> (#[trigger] out[k])@ == expected[k]
}

} // verus!
