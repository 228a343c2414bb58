//! What the timetable generator produces: one entry for every course,
//! instructor and classroom taken together, all at the same time slot.
//!
//! Nothing is checked for conflicts: the entries say neither that an
//! instructor is free nor that a classroom is large enough.

use crate::codec::{fits, Record};
use crate::error::StoreError;
use crate::records::{Classroom, Course, Instructor, Timetable, TimetableView};
use crate::model::StoreView;
use crate::table::{lemma_listing, listing};
use vstd::arithmetic::div_mod::lemma_fundamental_div_mod_converse;
use vstd::bytes::{lemma_auto_spec_u32_to_from_le_bytes, lemma_auto_spec_u64_to_from_le_bytes};
use vstd::prelude::*;
use vstd::utf8::{is_ascii_chars, is_ascii_chars_encode_utf8};

verus! {

/// The time slot every generated entry is given.
pub open spec fn generated_slot() -> Seq<char> {
    "08:00-10:00"@
}

/// The ids of a list of records.
pub open spec fn ids_of<E: Record>(views: Seq<E::V>) -> Seq<u64> {
    Seq::new(views.len(), |i: int| E::key(views[i]))
}

/// Where the entry of the `c`-th course, the `i`-th of `instructors`
/// instructors and the `r`-th of `classrooms` classrooms stands.
pub open spec fn place(c: int, i: int, r: int, instructors: int, classrooms: int) -> int {
    (c * instructors + i) * classrooms + r
}

/// One entry for every course, instructor and classroom taken together:
/// courses outermost, classrooms innermost, with ids counted up from
/// `first_id`.
pub open spec fn cross_product(
    courses: Seq<u64>,
    instructors: Seq<u64>,
    classrooms: Seq<u64>,
    first_id: u64,
) -> Seq<TimetableView> {
    Seq::new(
        (courses.len() * instructors.len() * classrooms.len()) as nat,
        |k: int|
            TimetableView {
                id: (first_id + k) as u64,
                course_id: courses[k / (classrooms.len() as int) / (instructors.len() as int)],
                instructor_id: instructors[(k / (classrooms.len() as int)) % (
                instructors.len() as int)],
                classroom_id: classrooms[k % (classrooms.len() as int)],
                time_slot: generated_slot(),
            },
    )
}

/// The place of a triple lies within the product, and the triple is read
/// back from it.
pub proof fn lemma_place(c: int, i: int, r: int, courses: int, instructors: int, classrooms: int)
    requires
        0 <= c < courses,
        0 <= i < instructors,
        0 <= r < classrooms,
    ensures
        0 <= place(c, i, r, instructors, classrooms) < courses * instructors * classrooms,
        place(c, i, r, instructors, classrooms) / classrooms / instructors == c,
        (place(c, i, r, instructors, classrooms) / classrooms) % instructors == i,
        place(c, i, r, instructors, classrooms) % classrooms == r,
{
    let row = c * instructors + i;
    let at = place(c, i, r, instructors, classrooms);
    assert(0 <= row < courses * instructors) by (nonlinear_arith)
        requires
            0 <= c < courses,
            0 <= i < instructors,
            row == c * instructors + i,
    ;
    assert(0 <= at < courses * instructors * classrooms) by (nonlinear_arith)
        requires
            0 <= row < courses * instructors,
            0 <= r < classrooms,
            at == row * classrooms + r,
    ;
    lemma_fundamental_div_mod_converse(at, classrooms, row, r);
    lemma_fundamental_div_mod_converse(row, instructors, c, i);
}

/// The entry at the place of a triple has the ids of the triple.
pub proof fn lemma_cross_product_at(
    courses: Seq<u64>,
    instructors: Seq<u64>,
    classrooms: Seq<u64>,
    first_id: u64,
    c: int,
    i: int,
    r: int,
)
    requires
        0 <= c < courses.len(),
        0 <= i < instructors.len(),
        0 <= r < classrooms.len(),
    ensures
        0 <= place(c, i, r, instructors.len() as int, classrooms.len() as int) < cross_product(
            courses,
            instructors,
            classrooms,
            first_id,
        ).len(),
        cross_product(courses, instructors, classrooms, first_id)[place(
            c,
            i,
            r,
            instructors.len() as int,
            classrooms.len() as int,
        )] == (TimetableView {
            id: (first_id + place(c, i, r, instructors.len() as int, classrooms.len() as int))
                as u64,
            course_id: courses[c],
            instructor_id: instructors[i],
            classroom_id: classrooms[r],
            time_slot: generated_slot(),
        }),
{
    lemma_place(
        c,
        i,
        r,
        courses.len() as int,
        instructors.len() as int,
        classrooms.len() as int,
    );
}

/// A generated entry fits in a record.
pub proof fn lemma_generated_fits(entry: TimetableView)
    requires
        entry.time_slot == generated_slot(),
    ensures
        fits::<Timetable>(entry),
{
    reveal_strlit("08:00-10:00");
    assert(is_ascii_chars(generated_slot()));
    is_ascii_chars_encode_utf8(generated_slot());
    lemma_auto_spec_u32_to_from_le_bytes();
    lemma_auto_spec_u64_to_from_le_bytes();
}

/// Keeping more timetable entries changes neither the counter nor any
/// other table.
pub proof fn lemma_with_timetables_keeps(store: StoreView, entries: Seq<TimetableView>)
    ensures
        store.with_timetables(entries).counter == store.counter,
        store.with_timetables(entries).users == store.users,
        store.with_timetables(entries).courses == store.courses,
        store.with_timetables(entries).instructors == store.instructors,
        store.with_timetables(entries).classrooms == store.classrooms,
    decreases entries.len(),
{
    if entries.len() > 0 {
        lemma_with_timetables_keeps(store, entries.drop_last());
    }
}

impl StoreView {
    /// The store with every entry of the list kept under its id.
    pub open spec fn with_timetables(self, entries: Seq<TimetableView>) -> StoreView
        decreases entries.len(),
    {
        if entries.len() == 0 {
            self
        } else {
            self.with_timetables(entries.drop_last()).with_timetable(entries.last())
        }
    }

    /// How many entries the generator makes of this store.
    pub open spec fn generated_count(self) -> nat {
        self.courses.dom().len() * self.instructors.dom().len() * self.classrooms.dom().len()
    }

    /// The entries the generator makes of this store.
    pub open spec fn generated(self) -> Seq<TimetableView> {
        cross_product(
            ids_of::<Course>(listing::<Course>(self.courses)),
            ids_of::<Instructor>(listing::<Instructor>(self.instructors)),
            ids_of::<Classroom>(listing::<Classroom>(self.classrooms)),
            self.counter,
        )
    }

    /// The generator makes as many entries as there are courses times
    /// instructors times classrooms.
    pub proof fn lemma_generated_len(self)
        requires
            self.wf(),
        ensures
            self.generated().len() == self.generated_count(),
    {
        lemma_listing::<Course>(self.courses);
        lemma_listing::<Instructor>(self.instructors);
        lemma_listing::<Classroom>(self.classrooms);
    }

    /// What generating does: an id is issued for every entry and the entries
    /// are returned, but not kept. Nothing is generated, and no id issued,
    /// where a table is empty or the counter has too few ids left.
    pub open spec fn generate_timetable(self) -> (
        StoreView,
        Result<Seq<TimetableView>, StoreError>,
    ) {
        if self.courses.dom().len() == 0 {
            (self, Err(StoreError::NoCourses))
        } else if self.instructors.dom().len() == 0 {
            (self, Err(StoreError::NoInstructors))
        } else if self.classrooms.dom().len() == 0 {
            (self, Err(StoreError::NoClassrooms))
        } else if self.counter + self.generated_count() > u64::MAX {
            (self, Err(StoreError::IdsExhausted))
        } else {
            (self.issue(self.generated_count()), Ok(self.generated()))
        }
    }

    /// What generating and keeping does: as generating, and every entry is
    /// then kept in the timetable table.
    pub open spec fn create_auto_timetable(self) -> (
        StoreView,
        Result<Seq<TimetableView>, StoreError>,
    ) {
        match self.generate_timetable().1 {
            Ok(entries) => (self.generate_timetable().0.with_timetables(entries), Ok(entries)),
            Err(error) => (self, Err(error)),
        }
    }
}

} // verus!
