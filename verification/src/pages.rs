//! The durable structures the store is built on: the durable memory, its
//! division into numbered regions, an ordered table of byte strings in one
//! region, and a single counter cell in another.
//!
//! Everything in this module is a thin, unverified binding to
//! `ic-stable-structures`. The contracts below are what the rest of the crate
//! assumes of that crate; nothing here is proved.
//!
//! A structure is opened only where the head of its memory shows that the
//! outside crate can open it: the `requires` of the three openers say so, and
//! `boot` tests it before it calls them. Every table and cell carries the
//! number of the region it was opened in, so that a caller can tell two
//! structures in one region, which overwrite one another, from two in
//! different ones. Writing to memory panics in the outside crate only where
//! the memory cannot grow any further.

use crate::boot::{
    cell_opens, found_entries, found_value, head_of, holds_cell, holds_map, manager_opens,
    map_opens, PAGE_BYTES,
};
use ic_stable_structures::memory_manager::{MemoryId, MemoryManager, VirtualMemory};
use ic_stable_structures::{Cell, DefaultMemoryImpl, Memory, StableBTreeMap};
use vstd::prelude::*;

verus! {

/// The durable memory of this process, as bytes.
///
/// Holds an `ic_stable_structures::DefaultMemoryImpl`.
#[verifier::external_body]
pub struct Disk {
    memory: DefaultMemoryImpl,
}

/// The durable pages of this process, divided into numbered regions.
///
/// Holds an `ic_stable_structures::memory_manager::MemoryManager` over the
/// default memory.
#[verifier::external_body]
pub struct Pages {
    manager: MemoryManager<DefaultMemoryImpl>,
}

/// One region of the durable pages.
///
/// Holds an `ic_stable_structures::memory_manager::VirtualMemory` over the
/// default memory.
#[verifier::external_body]
pub struct Region {
    memory: VirtualMemory<DefaultMemoryImpl>,
}

/// An ordered durable map from `u64` keys to byte strings.
///
/// Holds an `ic_stable_structures::StableBTreeMap<u64, Vec<u8>, _>`.
#[verifier::external_body]
pub struct Table {
    map: StableBTreeMap<u64, Vec<u8>, VirtualMemory<DefaultMemoryImpl>>,
}

/// A durable cell holding one `u64`.
///
/// Holds an `ic_stable_structures::Cell<u64, _>`.
#[verifier::external_body]
pub struct IdCell {
    cell: Cell<u64, VirtualMemory<DefaultMemoryImpl>>,
}

/// The bytes the durable memory holds, whole pages of them.
pub uninterp spec fn disk_bytes(disk: Disk) -> Seq<u8>;

/// The number a region has among the regions of its pages.
pub uninterp spec fn region_number(region: Region) -> u8;

/// The bytes a region holds, whole pages of them.
pub uninterp spec fn region_bytes(region: Region) -> Seq<u8>;

/// The key-value pairs a table holds.
pub uninterp spec fn table_entries(table: Table) -> Map<u64, Seq<u8>>;

/// The number of the region a table lives in.
pub uninterp spec fn table_region(table: Table) -> u8;

/// The number a cell holds.
pub uninterp spec fn cell_value(cell: IdCell) -> u64;

/// The number of the region a cell lives in.
pub uninterp spec fn cell_region(cell: IdCell) -> u8;

/// The key-value pairs of the table that the bytes of a region hold: what
/// `StableBTreeMap::init` loads from them.
pub uninterp spec fn map_in(bytes: Seq<u8>) -> Map<u64, Seq<u8>>;

/// The number of the cell that the bytes of a region hold: what `Cell::init`
/// loads from them.
pub uninterp spec fn cell_in(bytes: Seq<u8>) -> u64;

/// A table without entries.
pub open spec fn no_entries() -> Map<u64, Seq<u8>> {
    Map::empty()
}

/// `pairs` lists `entries` completely, once each, by ascending key.
pub open spec fn lists_entries(pairs: Seq<(u64, Vec<u8>)>, entries: Map<u64, Seq<u8>>) -> bool {
    &&& forall|i: int|
        0 <= i < pairs.len() ==> entries.contains_key((#[trigger] pairs[i]).0)
            && entries[pairs[i].0] == pairs[i].1@
    &&& forall|i: int, j: int|
        0 <= i < j < pairs.len() ==> (#[trigger] pairs[i]).0 < (#[trigger] pairs[j]).0
    &&& forall|k: u64| #[trigger]
        entries.contains_key(k) ==> exists|i: int|
            0 <= i < pairs.len() && (#[trigger] pairs[i]).0 == k
}

impl Disk {
    /// `DefaultMemoryImpl::default()`: a handle on the durable memory.
    ///
    /// Nothing is claimed of what it holds.
    #[verifier::external_body]
    pub(crate) fn attach() -> (disk: Disk) {
        Disk { memory: DefaultMemoryImpl::default() }
    }

    /// `Memory::size`: how many pages the memory has.
    #[verifier::external_body]
    pub(crate) fn size(&self) -> (pages: u64)
        ensures
            pages * PAGE_BYTES == disk_bytes(*self).len(),
    {
        self.memory.size()
    }

    /// `Memory::read` into a buffer of `count` bytes: the bytes from
    /// `offset` on.
    ///
    /// The outside call panics on a read past the last page, which the
    /// precondition excludes.
    #[verifier::external_body]
    pub(crate) fn read(&self, offset: u64, count: usize) -> (bytes: Vec<u8>)
        requires
            offset + count <= disk_bytes(*self).len(),
        ensures
            bytes@ == disk_bytes(*self).subrange(offset as int, offset + count),
    {
        let mut bytes = vec![0u8; count];
        self.memory.read(offset, &mut bytes);
        bytes
    }
}

impl Pages {
    /// `MemoryManager::init`: the manager the memory already holds, or a new
    /// one where it holds none.
    ///
    /// The outside call loads a manager where the memory starts with the
    /// manager's mark, and then insists on the layout version it knows; the
    /// precondition leaves out a memory with the mark and another version.
    #[verifier::external_body]
    pub(crate) fn open(disk: Disk) -> (pages: Pages)
        requires
            manager_opens(head_of(disk_bytes(disk))),
    {
        Pages { manager: MemoryManager::init(disk.memory) }
    }

    /// `MemoryManager::get` with `MemoryId::new(number)`: the region of that
    /// number.
    ///
    /// `MemoryId::new` rejects 255, which the precondition excludes. Asking
    /// twice for one number gives the same region twice.
    #[verifier::external_body]
    pub(crate) fn region(&self, number: u8) -> (region: Region)
        requires
            number < 255,
        ensures
            region_number(region) == number,
    {
        Region { memory: self.manager.get(MemoryId::new(number)) }
    }
}

impl Region {
    /// `Memory::size`: how many pages the region has.
    #[verifier::external_body]
    pub(crate) fn size(&self) -> (pages: u64)
        ensures
            pages * PAGE_BYTES == region_bytes(*self).len(),
    {
        self.memory.size()
    }

    /// `Memory::read` into a buffer of `count` bytes: the bytes from
    /// `offset` on.
    ///
    /// The outside call panics on a read past the last page, which the
    /// precondition excludes.
    #[verifier::external_body]
    pub(crate) fn read(&self, offset: u64, count: usize) -> (bytes: Vec<u8>)
        requires
            offset + count <= region_bytes(*self).len(),
        ensures
            bytes@ == region_bytes(*self).subrange(offset as int, offset + count),
    {
        let mut bytes = vec![0u8; count];
        self.memory.read(offset, &mut bytes);
        bytes
    }
}

impl Table {
    /// `StableBTreeMap::init`: the map the region already holds, or an empty
    /// one where it holds none.
    ///
    /// The outside call loads a map where the region starts with the map's
    /// mark, and then insists on a layout version it knows and on the mark
    /// and version of the map's allocator; the precondition leaves out a
    /// region with the map's mark and anything else behind it. A map that
    /// is loaded holds what the bytes of the region hold.
    #[verifier::external_body]
    pub(crate) fn init(region: Region) -> (table: Table)
        requires
            map_opens(head_of(region_bytes(region))),
        ensures
            table_region(table) == region_number(region),
            table_entries(table) == found_entries(region_bytes(region)),
    {
        Table { map: StableBTreeMap::init(region.memory) }
    }

    /// `StableBTreeMap::into_memory`: the region the table lives in.
    ///
    /// The table keeps its region up to date with every change, so the
    /// region holds the table, in a layout that can be opened, and holds it
    /// with the entries the table has.
    #[verifier::external_body]
    pub(crate) fn into_region(self) -> (region: Region)
        ensures
            region_number(region) == table_region(self),
            holds_map(head_of(region_bytes(region))),
            map_opens(head_of(region_bytes(region))),
            map_in(region_bytes(region)) == table_entries(self),
    {
        Region { memory: self.map.into_memory() }
    }

    /// `StableBTreeMap::insert`: the pair is added, replacing any value the
    /// key had. The earlier value, which the outside call returns, is
    /// dropped.
    ///
    /// The outside call panics when the region cannot grow any further.
    #[verifier::external_body]
    pub(crate) fn insert(&mut self, key: u64, value: Vec<u8>)
        ensures
            table_entries(*final(self)) == table_entries(*old(self)).insert(key, value@),
            table_region(*final(self)) == table_region(*old(self)),
    {
        self.map.insert(key, value);
    }

    /// `StableBTreeMap::remove`: the key's pair is taken out and its value
    /// returned, or nothing changes and `None` is returned.
    #[verifier::external_body]
    pub(crate) fn remove(&mut self, key: u64) -> (removed: Option<Vec<u8>>)
        ensures
            table_entries(*final(self)) == table_entries(*old(self)).remove(key),
            table_region(*final(self)) == table_region(*old(self)),
            removed is Some <==> table_entries(*old(self)).contains_key(key),
    {
        self.map.remove(&key)
    }

    /// `StableBTreeMap::get`: a copy of the value stored under the key.
    #[verifier::external_body]
    pub(crate) fn get(&self, key: u64) -> (found: Option<Vec<u8>>)
        ensures
            found is Some <==> table_entries(*self).contains_key(key),
            found matches Some(bytes) ==> bytes@ == table_entries(*self)[key],
    {
        self.map.get(&key)
    }

    /// `StableBTreeMap::iter`, each entry turned into an owned pair with
    /// `LazyEntry::into_pair`: every pair of the map, by ascending key.
    #[verifier::external_body]
    pub(crate) fn listing(&self) -> (pairs: Vec<(u64, Vec<u8>)>)
        ensures
            lists_entries(pairs@, table_entries(*self)),
    {
        self.map.iter().map(|entry| entry.into_pair()).collect()
    }
}

impl IdCell {
    /// `Cell::init`: the cell the region already holds, or a new one that
    /// holds `default` where it holds none.
    ///
    /// The outside call loads a cell where the region starts with the cell's
    /// mark, and then insists on the layout version it knows and reads as
    /// many bytes of value as the header names, which must be the eight of a
    /// `u64`; the precondition leaves out a region with the mark and another
    /// version or length. A cell that is loaded holds what the bytes of the
    /// region hold.
    #[verifier::external_body]
    pub(crate) fn init(region: Region, default: u64) -> (cell: IdCell)
        requires
            cell_opens(head_of(region_bytes(region))),
        ensures
            cell_region(cell) == region_number(region),
            cell_value(cell) == found_value(region_bytes(region), default),
    {
        IdCell { cell: Cell::init(region.memory, default) }
    }

    /// `Cell::into_memory`: the region the cell lives in.
    ///
    /// The cell writes its value to the region whenever it is set, so the
    /// region holds the cell, in a layout that can be opened, and holds it
    /// with the value the cell has.
    #[verifier::external_body]
    pub(crate) fn into_region(self) -> (region: Region)
        ensures
            region_number(region) == cell_region(self),
            holds_cell(head_of(region_bytes(region))),
            cell_opens(head_of(region_bytes(region))),
            cell_in(region_bytes(region)) == cell_value(self),
    {
        Region { memory: self.cell.into_memory() }
    }

    /// `Cell::get`: the value the cell holds.
    #[verifier::external_body]
    pub(crate) fn get(&self) -> (value: u64)
        ensures
            value == cell_value(*self),
    {
        *self.cell.get()
    }

    /// `Cell::set`: the cell takes the new value and the one it held is
    /// returned.
    ///
    /// The outside call panics if the value cannot be written to the
    /// region; a region that holds a cell has room for its eight bytes.
    #[verifier::external_body]
    pub(crate) fn set(&mut self, value: u64) -> (previous: u64)
        ensures
            cell_value(*final(self)) == value,
            cell_region(*final(self)) == cell_region(*old(self)),
            previous == cell_value(*old(self)),
    {
        self.cell.set(value)
    }
}

} // verus!
