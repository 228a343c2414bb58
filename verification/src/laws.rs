//! What holds of the store whatever it holds: statements about the values
//! of stores and records, each proved from the definitions of the
//! operations.

use crate::codec::{fits, Record};
use crate::error::{ErrorKind, StoreError};
use crate::generator::{generated_slot, lemma_generated_fits, lemma_with_timetables_keeps};
use crate::records::{
    Classroom, ClassroomPayloadView, Course, CoursePayloadView, Instructor, InstructorPayloadView,
    Timetable, TimetablePayloadView, TimetableView, User, UserPayloadView, UserRole, UserView,
};
use crate::pattern::is_valid_password;
use crate::model::{
    admission_refusal, email_unused, keyed, user_from, user_rejection, StoreView,
};
use crate::table::{lemma_listing, listing};
use vstd::prelude::*;
use vstd::utf8::encode_utf8;

verus! {

impl StoreView {
    /// Some table keeps a record under the id.
    pub open spec fn holds_id(self, id: u64) -> bool {
        ||| self.users.contains_key(id)
        ||| self.courses.contains_key(id)
        ||| self.instructors.contains_key(id)
        ||| self.classrooms.contains_key(id)
        ||| self.timetables.contains_key(id)
    }

    /// The id is one the counter has not issued: no table holds it, and it
    /// is above every id a table holds.
    pub open spec fn is_new_id(self, id: u64) -> bool {
        &&& id >= self.counter
        &&& !self.holds_id(id)
        &&& forall|held: u64| #[trigger] self.holds_id(held) ==> held < id
    }
}

/// A record read back from its bytes is written to the same bytes again:
/// writing, reading and writing once more gives what the first writing gave.
pub proof fn lemma_encoding_settles<E: Record>(record: E::V)
    requires
        fits::<E>(record),
    ensures
        E::decoding(E::encoding(record)) == Some(record),
        E::encoding(E::decoding(E::encoding(record)).unwrap()) == E::encoding(record),
{
    E::lemma_round_trip(record);
}

/// The id the counter issues is a new one, and the counter then stands
/// above it, so that it is never issued again.
pub proof fn lemma_issued_id_is_new(store: StoreView)
    requires
        store.wf(),
        store.next_id().1 is Ok,
    ensures
        store.is_new_id(store.next_id().1.unwrap()),
        store.next_id().0.counter > store.next_id().1.unwrap(),
        store.next_id().0.wf(),
{
}

/// A user that is created gets a new id and is kept under it; the counter
/// then stands above that id.
pub proof fn lemma_created_user_id_is_new(store: StoreView, payload: UserPayloadView, now: u64)
    requires
        store.wf(),
        store.create_user(payload, now).1 is Ok,
    ensures
        ({
            let (after, created) = store.create_user(payload, now);
            &&& store.is_new_id(created.unwrap().id)
            &&& after.counter > created.unwrap().id
            &&& after.users.contains_key(created.unwrap().id)
            &&& after.users[created.unwrap().id] == created.unwrap()
            &&& after.wf()
        }),
{
}

/// A course that is created gets a new id and is kept under it; the counter
/// then stands above that id.
pub proof fn lemma_created_course_id_is_new(store: StoreView, payload: CoursePayloadView)
    requires
        store.wf(),
        store.create_course(payload).1 is Ok,
    ensures
        ({
            let (after, created) = store.create_course(payload);
            &&& store.is_new_id(created.unwrap().id)
            &&& after.counter > created.unwrap().id
            &&& after.courses.contains_key(created.unwrap().id)
            &&& after.courses[created.unwrap().id] == created.unwrap()
            &&& after.wf()
        }),
{
}

/// An instructor that is created gets a new id and is kept under it; the
/// counter then stands above that id.
pub proof fn lemma_created_instructor_id_is_new(store: StoreView, payload: InstructorPayloadView)
    requires
        store.wf(),
        store.create_instructor(payload).1 is Ok,
    ensures
        ({
            let (after, created) = store.create_instructor(payload);
            &&& store.is_new_id(created.unwrap().id)
            &&& after.counter > created.unwrap().id
            &&& after.instructors.contains_key(created.unwrap().id)
            &&& after.instructors[created.unwrap().id] == created.unwrap()
            &&& after.wf()
        }),
{
}

/// A classroom that is created gets a new id and is kept under it; the
/// counter then stands above that id.
pub proof fn lemma_created_classroom_id_is_new(store: StoreView, payload: ClassroomPayloadView)
    requires
        store.wf(),
        store.create_classroom(payload).1 is Ok,
    ensures
        ({
            let (after, created) = store.create_classroom(payload);
            &&& store.is_new_id(created.unwrap().id)
            &&& after.counter > created.unwrap().id
            &&& after.classrooms.contains_key(created.unwrap().id)
            &&& after.classrooms[created.unwrap().id] == created.unwrap()
            &&& after.wf()
        }),
{
}

/// A timetable entry that is created gets a new id and is kept under it;
/// the counter then stands above that id.
pub proof fn lemma_created_timetable_id_is_new(store: StoreView, payload: TimetablePayloadView)
    requires
        store.wf(),
        store.create_timetable(payload).1 is Ok,
    ensures
        ({
            let (after, created) = store.create_timetable(payload);
            &&& store.is_new_id(created.unwrap().id)
            &&& after.counter > created.unwrap().id
            &&& after.timetables.contains_key(created.unwrap().id)
            &&& after.timetables[created.unwrap().id] == created.unwrap()
            &&& after.wf()
        }),
{
}

/// No operation sets the counter back: an id that was issued is never
/// issued again, whatever became of the record it was issued for.
pub proof fn lemma_counter_never_goes_back(
    store: StoreView,
    user: UserPayloadView,
    now: u64,
    user_id: u64,
    role: UserRole,
    course: CoursePayloadView,
    instructor: InstructorPayloadView,
    classroom: ClassroomPayloadView,
    timetable: TimetablePayloadView,
)
    ensures
        store.next_id().0.counter >= store.counter,
        store.create_user(user, now).0.counter >= store.counter,
        store.change_user_role(user_id, role).0.counter == store.counter,
        store.update_user(user_id, user).0.counter == store.counter,
        store.delete_user(user_id).0.counter == store.counter,
        store.create_course(course).0.counter >= store.counter,
        store.create_instructor(instructor).0.counter >= store.counter,
        store.create_classroom(classroom).0.counter >= store.counter,
        store.create_timetable(timetable).0.counter >= store.counter,
        store.generate_timetable().0.counter >= store.counter,
        store.create_auto_timetable().0.counter >= store.counter,
{
    if store.generate_timetable().1 is Ok {
        lemma_with_timetables_keeps(
            store.generate_timetable().0,
            store.generate_timetable().1.unwrap(),
        );
    }
}

/// A record is kept in the table of its kind and in no other: a creation
/// changes one table and leaves the other four as they were.
pub proof fn lemma_creation_touches_one_table(
    store: StoreView,
    user: UserPayloadView,
    now: u64,
    course: CoursePayloadView,
    instructor: InstructorPayloadView,
    classroom: ClassroomPayloadView,
    timetable: TimetablePayloadView,
)
    ensures
        ({
            let after = store.create_user(user, now).0;
            after.courses == store.courses && after.instructors == store.instructors
                && after.classrooms == store.classrooms && after.timetables == store.timetables
        }),
        ({
            let after = store.create_course(course).0;
            after.users == store.users && after.instructors == store.instructors
                && after.classrooms == store.classrooms && after.timetables == store.timetables
        }),
        ({
            let after = store.create_instructor(instructor).0;
            after.users == store.users && after.courses == store.courses && after.classrooms
                == store.classrooms && after.timetables == store.timetables
        }),
        ({
            let after = store.create_classroom(classroom).0;
            after.users == store.users && after.courses == store.courses && after.instructors
                == store.instructors && after.timetables == store.timetables
        }),
        ({
            let after = store.create_timetable(timetable).0;
            after.users == store.users && after.courses == store.courses && after.instructors
                == store.instructors && after.classrooms == store.classrooms
        }),
{
}

/// A payload whose email a user already has, letter for letter, is turned
/// down with a validation error, and no id is issued for it.
pub proof fn lemma_taken_email_is_refused(store: StoreView, payload: UserPayloadView, now: u64)
    requires
        !email_unused(store.users, payload.email),
    ensures
        store.create_user(payload, now).1 is Err,
        store.create_user(payload, now).1->Err_0.class() == ErrorKind::Validation,
        store.create_user(payload, now).0 == store,
{
}

/// A payload whose password is shorter than eight bytes is turned down
/// with a validation error and changes nothing; a password of eight bytes
/// or more is never the reason a payload is turned down.
pub proof fn lemma_password_rule(store: StoreView, payload: UserPayloadView, now: u64)
    ensures
        !is_valid_password(payload.password) ==> {
            &&& store.create_user(payload, now).1 is Err
            &&& store.create_user(payload, now).1->Err_0.class() == ErrorKind::Validation
            &&& store.create_user(payload, now).0 == store
        },
        is_valid_password(payload.password) ==> store.create_user(payload, now).1 != Err::<
            UserView,
            StoreError,
        >(StoreError::WeakPassword),
        is_valid_password(payload.password) <==> encode_utf8(payload.password).len() >= 8,
{
}

/// A payload that breaks no rule, fits in a record and finds an id left is
/// made a user with exactly its fields, the id that was next and the time
/// given.
pub proof fn lemma_sound_payload_is_created(store: StoreView, payload: UserPayloadView, now: u64)
    requires
        user_rejection(payload, store.users) is None,
        admission_refusal::<User>(user_from(payload, store.counter, now), store.counter) is None,
    ensures
        store.create_user(payload, now).1 == Ok::<UserView, StoreError>(
            UserView {
                id: store.counter,
                username: payload.username,
                password: payload.password,
                role: payload.role,
                email: payload.email,
                created_at: now,
            },
        ),
{
}

/// A user that is updated keeps its id and its time of creation, and has
/// everything else from the payload; no other user changes and no id is
/// issued.
pub proof fn lemma_update_keeps_identity(store: StoreView, user_id: u64, payload: UserPayloadView)
    requires
        store.wf(),
        store.update_user(user_id, payload).1 is Ok,
    ensures
        ({
            let (after, updated) = store.update_user(user_id, payload);
            let user = updated.unwrap();
            &&& store.users.contains_key(user_id)
            &&& user.id == user_id
            &&& user.created_at == store.users[user_id].created_at
            &&& user.username == payload.username
            &&& user.password == payload.password
            &&& user.email == payload.email
            &&& user.role == payload.role
            &&& after.users == store.users.insert(user_id, user)
            &&& after.counter == store.counter
            &&& after.wf()
        }),
{
}

/// Changing the role of a user that is there always succeeds, and the user
/// is otherwise as it was.
pub proof fn lemma_role_change_keeps_the_rest(store: StoreView, user_id: u64, role: UserRole)
    requires
        store.wf(),
        store.users.contains_key(user_id),
    ensures
        ({
            let (after, changed) = store.change_user_role(user_id, role);
            &&& changed == Ok::<UserView, StoreError>(UserView { role, ..store.users[user_id] })
            &&& after.users == store.users.insert(user_id, changed.unwrap())
            &&& after.counter == store.counter
            &&& after.wf()
        }),
{
    let user = store.users[user_id];
    let changed = UserView { role, ..user };
    assert(User::encoding(changed).len() == User::encoding(user).len());
}

/// Deleting a user that is not there is a not-found error and changes
/// nothing.
pub proof fn lemma_delete_of_missing_user(store: StoreView, user_id: u64)
    requires
        !store.users.contains_key(user_id),
    ensures
        store.delete_user(user_id).1 is Err,
        store.delete_user(user_id).1->Err_0.class() == ErrorKind::NotFound,
        store.delete_user(user_id).0 == store,
{
}

/// After a user is deleted, a listing of the users does not hold it, and
/// holds every other user as before.
pub proof fn lemma_deleted_user_is_not_listed(store: StoreView, user_id: u64)
    requires
        store.wf(),
        store.users.contains_key(user_id),
    ensures
        ({
            let after = store.delete_user(user_id).0;
            &&& store.delete_user(user_id).1 is Ok
            &&& after.wf()
            &&& forall|i: int|
                0 <= i < listing::<User>(after.users).len() ==> (#[trigger] listing::<User>(
                    after.users,
                )[i]).id != user_id
            &&& forall|other: u64|
                other != user_id && #[trigger] store.users.contains_key(other) ==> exists|i: int|
                    0 <= i < listing::<User>(after.users).len() && #[trigger] listing::<User>(
                        after.users,
                    )[i] == store.users[other]
            &&& listing::<User>(after.users).len() + 1 == listing::<User>(store.users).len()
        }),
{
    let after = store.delete_user(user_id).0;
    let views = listing::<User>(after.users);
    lemma_listing::<User>(after.users);
    lemma_listing::<User>(store.users);
    assert forall|i: int| 0 <= i < views.len() implies (#[trigger] views[i]).id != user_id by {
        assert(after.users.contains_key(User::key(views[i])));
    }
    assert forall|other: u64|
        other != user_id && #[trigger] store.users.contains_key(other) implies exists|i: int|
        0 <= i < views.len() && #[trigger] views[i] == store.users[other] by {
        assert(after.users.contains_key(other));
        let i = choose|i: int| 0 <= i < views.len() && User::key(#[trigger] views[i]) == other;
        assert(views[i] == after.users[other]);
    }
}

/// A listing of an empty table is an error and never an empty list; a
/// listing of any other table holds every record of it.
pub proof fn lemma_listing_is_never_empty(store: StoreView)
    requires
        store.wf(),
    ensures
        store.get_users() matches Ok(list) ==> list.len() == store.users.dom().len() && list.len()
            > 0,
        store.get_courses() matches Ok(list) ==> list.len() == store.courses.dom().len()
            && list.len() > 0,
        store.get_instructors() matches Ok(list) ==> list.len() == store.instructors.dom().len()
            && list.len() > 0,
        store.get_classrooms() matches Ok(list) ==> list.len() == store.classrooms.dom().len()
            && list.len() > 0,
        store.get_timetables() matches Ok(list) ==> list.len() == store.timetables.dom().len()
            && list.len() > 0,
        store.users.dom().len() == 0 ==> store.get_users() == Err::<Seq<UserView>, StoreError>(
            StoreError::NoUsers,
        ),
        store.get_users() is Err ==> store.get_users()->Err_0.class()
            == ErrorKind::EmptyCollection,
        store.get_courses() is Err ==> store.get_courses()->Err_0.class()
            == ErrorKind::EmptyCollection,
        store.get_instructors() is Err ==> store.get_instructors()->Err_0.class()
            == ErrorKind::EmptyCollection,
        store.get_classrooms() is Err ==> store.get_classrooms()->Err_0.class()
            == ErrorKind::EmptyCollection,
        store.get_timetables() is Err ==> store.get_timetables()->Err_0.class()
            == ErrorKind::EmptyCollection,
{
    lemma_listing::<User>(store.users);
    lemma_listing::<Course>(store.courses);
    lemma_listing::<Instructor>(store.instructors);
    lemma_listing::<Classroom>(store.classrooms);
    lemma_listing::<Timetable>(store.timetables);
}

/// Keeping a run of entries whose ids count up from a number above every
/// id of the table adds each of them and touches nothing that was there.
pub proof fn lemma_with_timetables(store: StoreView, entries: Seq<TimetableView>, first: u64)
    requires
        keyed::<Timetable>(store.timetables, first),
        forall|k: int| 0 <= k < entries.len() ==> (#[trigger] entries[k]).id == first + k,
    ensures
        ({
            let after = store.with_timetables(entries).timetables;
            &&& after.dom().finite()
            &&& after.dom().len() == store.timetables.dom().len() + entries.len()
            &&& forall|k: int|
                0 <= k < entries.len() ==> after.contains_key((#[trigger] entries[k]).id)
                    && after[entries[k].id] == entries[k]
            &&& forall|id: u64| #[trigger]
                after.contains_key(id) <==> store.timetables.contains_key(id) || first <= id < first
                    + entries.len()
            &&& forall|id: u64| #[trigger]
                store.timetables.contains_key(id) ==> after[id] == store.timetables[id]
        }),
    decreases entries.len(),
{
    if entries.len() > 0 {
        let shorter = entries.drop_last();
        let last = entries.last();
        assert forall|k: int| 0 <= k < shorter.len() implies (#[trigger] shorter[k]).id == first
            + k by {
            assert(shorter[k] == entries[k]);
        }
        lemma_with_timetables(store, shorter, first);
        let before = store.with_timetables(shorter).timetables;
        let after = store.with_timetables(entries).timetables;
        assert(after == before.insert(last.id, last));
        assert(last.id == first + entries.len() - 1);
        assert(!before.contains_key(last.id));
        assert forall|k: int| 0 <= k < entries.len() implies after.contains_key(
            (#[trigger] entries[k]).id,
        ) && after[entries[k].id] == entries[k] by {
            if k < shorter.len() {
                assert(shorter[k] == entries[k]);
            }
        }
    }
}

/// What a successful run of the generator that keeps its entries does, with
/// `C` courses, `I` instructors and `R` classrooms: it makes `C * I * R`
/// entries, each under a new id of its own and at the one fixed time slot,
/// and the timetable table grows by exactly that many entries.
pub proof fn lemma_generation_makes_the_product(store: StoreView)
    requires
        store.wf(),
        store.create_auto_timetable().1 is Ok,
    ensures
        ({
            let (after, created) = store.create_auto_timetable();
            let entries = created.unwrap();
            &&& entries.len() == store.courses.dom().len() * store.instructors.dom().len()
                * store.classrooms.dom().len()
            &&& forall|k: int|
                0 <= k < entries.len() ==> (#[trigger] entries[k]).time_slot == generated_slot()
                    && entries[k].id == store.counter + k && store.is_new_id(entries[k].id)
            &&& forall|j: int, k: int|
                0 <= j < k < entries.len() ==> (#[trigger] entries[j]).id != (
                #[trigger] entries[k]).id
            &&& forall|k: int|
                0 <= k < entries.len() ==> after.timetables.contains_key(
                    (#[trigger] entries[k]).id,
                ) && after.timetables[entries[k].id] == entries[k]
            &&& forall|id: u64| #[trigger]
                store.timetables.contains_key(id) ==> after.timetables.contains_key(id)
                    && after.timetables[id] == store.timetables[id]
            &&& after.timetables.dom().len() == store.timetables.dom().len() + entries.len()
            &&& after.counter == store.counter + entries.len()
            &&& after.users == store.users
            &&& after.courses == store.courses
            &&& after.instructors == store.instructors
            &&& after.classrooms == store.classrooms
            &&& after.wf()
        }),
{
    let (after, created) = store.create_auto_timetable();
    let entries = created.unwrap();
    let issued = store.generate_timetable().0;
    store.lemma_generated_len();
    lemma_with_timetables_keeps(issued, entries);
    lemma_with_timetables(issued, entries, store.counter);
    assert forall|k: int| 0 <= k < entries.len() implies store.is_new_id(
        (#[trigger] entries[k]).id,
    ) by {}
    assert forall|id: u64| #[trigger] after.timetables.contains_key(id) implies id < after.counter
        && Timetable::key(after.timetables[id]) == id && fits::<Timetable>(
        after.timetables[id],
    ) by {
        if !store.timetables.contains_key(id) {
            let k = id - store.counter;
            assert(entries[k].id == id);
            lemma_generated_fits(entries[k]);
        }
    }
}

/// Generating again over the same courses, instructors and classrooms makes
/// the same entries once more under the next ids, beside the earlier ones:
/// the timetable table then holds twice as many more than before.
pub proof fn lemma_generation_repeats(store: StoreView)
    requires
        store.wf(),
        store.create_auto_timetable().1 is Ok,
        store.create_auto_timetable().0.create_auto_timetable().1 is Ok,
    ensures
        ({
            let (once, first) = store.create_auto_timetable();
            let (twice, second) = once.create_auto_timetable();
            let n = first.unwrap().len();
            &&& second.unwrap().len() == n
            &&& forall|k: int|
                0 <= k < n ==> #[trigger] second.unwrap()[k] == (TimetableView {
                    id: (first.unwrap()[k].id + n) as u64,
                    ..first.unwrap()[k]
                })
            &&& forall|k: int|
                0 <= k < n ==> twice.timetables.contains_key((#[trigger] first.unwrap()[k]).id)
                    && twice.timetables[first.unwrap()[k].id] == first.unwrap()[k]
            &&& twice.timetables.dom().len() == store.timetables.dom().len() + 2 * n
        }),
{
    let (once, first) = store.create_auto_timetable();
    lemma_generation_makes_the_product(store);
    lemma_generation_makes_the_product(once);
    let (twice, second) = once.create_auto_timetable();
    let n = first.unwrap().len();
    assert forall|k: int| 0 <= k < n implies twice.timetables.contains_key(
        (#[trigger] first.unwrap()[k]).id,
    ) && twice.timetables[first.unwrap()[k].id] == first.unwrap()[k] by {
        assert(once.timetables.contains_key(first.unwrap()[k].id));
    }
}

} // verus!
