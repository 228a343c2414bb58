//! A durable store of the records of an academic timetable: users, courses,
//! instructors, classrooms and timetable entries, kept in five tables that
//! share one counter of ids.
//!
//! `store` holds the store and its operations, `model` what each operation
//! does to the value of the store, `records` the kinds of record, `codec`
//! and `wire` their byte form, `pattern` the checks on what a user types,
//! `generator` what the timetable generator makes, `table` what the bytes of
//! a table stand for, `pages` the durable structures underneath, `boot` how
//! they are opened, `error` what an operation reports, and `laws` what holds
//! of every store.

pub mod boot;
pub mod codec;
pub mod error;
pub mod generator;
pub mod laws;
pub mod model;
pub mod pages;
pub mod pattern;
pub mod records;
pub mod store;
pub mod table;
pub mod wire;
