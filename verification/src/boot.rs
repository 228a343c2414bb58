//! Opening the durable structures: what the head of a memory must show
//! before the structure in it is opened, and the three openers that look
//! before they open.
//!
//! The manager of the pages, a table and a cell each begin with a mark of
//! three bytes and a layout version. A memory without the mark holds no
//! such structure and gets a new one. A memory with the mark is opened only
//! if what follows the mark is what the structure's own reader accepts.

use crate::error::StoreError;
use crate::pages::{
    cell_in, cell_region, cell_value, disk_bytes, map_in, no_entries, region_bytes,
    region_number, table_entries, table_region, Disk, IdCell, Pages, Region, Table,
};
use vstd::prelude::*;

verus! {

/// The bytes of one page of memory.
pub const PAGE_BYTES: u64 = 65536;

/// How many bytes of a memory are looked at before it is opened.
pub const HEAD_BYTES: usize = 64;

/// The head of a memory: its first [`HEAD_BYTES`] bytes, or nothing where
/// it has no page yet.
pub open spec fn head_of(bytes: Seq<u8>) -> Seq<u8> {
    if bytes.len() >= HEAD_BYTES {
        bytes.take(HEAD_BYTES as int)
    } else {
        Seq::empty()
    }
}

/// The three bytes at `at` are `a`, `b` and `c`.
pub open spec fn marked(head: Seq<u8>, at: int, a: u8, b: u8, c: u8) -> bool {
    0 <= at && at + 3 < head.len() && head[at] == a && head[at + 1] == b && head[at + 2] == c
}

/// The memory holds a manager of pages: it starts with `MGR`.
pub open spec fn holds_manager(head: Seq<u8>) -> bool {
    marked(head, 0, 0x4D, 0x47, 0x52)
}

/// The manager of pages in the memory, if there is one, can be opened: its
/// layout version is 1.
pub open spec fn manager_opens(head: Seq<u8>) -> bool {
    holds_manager(head) ==> head[3] == 1
}

/// The region holds a table: it starts with `BTR`.
pub open spec fn holds_map(head: Seq<u8>) -> bool {
    marked(head, 0, 0x42, 0x54, 0x52)
}

/// The table in the region, if there is one, can be opened: its layout
/// version is 1 or 2, and its allocator, at byte 52, starts with `BTA` and
/// has layout version 1.
pub open spec fn map_opens(head: Seq<u8>) -> bool {
    holds_map(head) ==> (head[3] == 1 || head[3] == 2) && marked(head, 52, 0x42, 0x54, 0x41)
        && head[55] == 1
}

/// The region holds a cell: it starts with `SCL`.
pub open spec fn holds_cell(head: Seq<u8>) -> bool {
    marked(head, 0, 0x53, 0x43, 0x4C)
}

/// The cell in the region, if there is one, can be opened as a cell of a
/// `u64`: its layout version is 1 and its value, whose length stands
/// little-endian in bytes 4 to 7, is eight bytes long.
pub open spec fn cell_opens(head: Seq<u8>) -> bool {
    holds_cell(head) ==> head.len() >= 8 && head[3] == 1 && head[4] == 8 && head[5] == 0
        && head[6] == 0 && head[7] == 0
}

/// The entries of the table found in a region: those the region holds, or
/// none where it holds no table.
pub open spec fn found_entries(bytes: Seq<u8>) -> Map<u64, Seq<u8>> {
    if holds_map(head_of(bytes)) {
        map_in(bytes)
    } else {
        no_entries()
    }
}

/// The value of the cell found in a region: the one the region holds, or
/// `start` where it holds no cell.
pub open spec fn found_value(bytes: Seq<u8>, start: u64) -> u64 {
    if holds_cell(head_of(bytes)) {
        cell_in(bytes)
    } else {
        start
    }
}

/// Whether the three bytes at `at` are `a`, `b` and `c`.
pub fn is_marked(head: &[u8], at: usize, a: u8, b: u8, c: u8) -> (found: bool)
    requires
        at <= HEAD_BYTES,
    ensures
        found == marked(head@, at as int, a, b, c),
{
    at + 3 < head.len() && head[at] == a && head[at + 1] == b && head[at + 2] == c
}

/// Whether a memory with this head can be opened as the pages.
pub fn manager_head_opens(head: &[u8]) -> (opens: bool)
    ensures
        opens == manager_opens(head@),
{
    !is_marked(head, 0, 0x4D, 0x47, 0x52) || head[3] == 1
}

/// Whether a region with this head can be opened as a table.
pub fn map_head_opens(head: &[u8]) -> (opens: bool)
    ensures
        opens == map_opens(head@),
{
    !is_marked(head, 0, 0x42, 0x54, 0x52) || ((head[3] == 1 || head[3] == 2) && is_marked(
        head,
        52,
        0x42,
        0x54,
        0x41,
    ) && head[55] == 1)
}

/// Whether a region with this head can be opened as a cell of a `u64`.
pub fn cell_head_opens(head: &[u8]) -> (opens: bool)
    ensures
        opens == cell_opens(head@),
{
    !is_marked(head, 0, 0x53, 0x43, 0x4C) || (head.len() >= 8 && head[3] == 1 && head[4] == 8
        && head[5] == 0 && head[6] == 0 && head[7] == 0)
}

/// The head of the durable memory.
pub fn disk_head(disk: &Disk) -> (head: Vec<u8>)
    ensures
        head@ == head_of(disk_bytes(*disk)),
{
    if disk.size() == 0 {
        Vec::new()
    } else {
        let head = disk.read(0, HEAD_BYTES);
        assert(head@ =~= head_of(disk_bytes(*disk)));
        head
    }
}

/// The head of a region.
pub fn region_head(region: &Region) -> (head: Vec<u8>)
    ensures
        head@ == head_of(region_bytes(*region)),
{
    if region.size() == 0 {
        Vec::new()
    } else {
        let head = region.read(0, HEAD_BYTES);
        assert(head@ =~= head_of(region_bytes(*region)));
        head
    }
}

/// Opens the pages on the durable memory, unless the memory holds pages of
/// a layout that cannot be opened.
pub fn open_pages(disk: Disk) -> (opened: Result<Pages, StoreError>)
    ensures
        opened is Ok <==> manager_opens(head_of(disk_bytes(disk))),
        opened matches Err(error) ==> error == StoreError::DamagedRegion,
{
    let head = disk_head(&disk);
    if manager_head_opens(head.as_slice()) {
        Ok(Pages::open(disk))
    } else {
        Err(StoreError::DamagedRegion)
    }
}

/// Opens the table in the region, unless the region holds a table of a
/// layout that cannot be opened. A region that holds no table gets an empty
/// one.
pub fn open_table(region: Region) -> (opened: Result<Table, StoreError>)
    ensures
        opened is Ok <==> map_opens(head_of(region_bytes(region))),
        opened matches Ok(table) ==> table_region(table) == region_number(region)
            && table_entries(table) == found_entries(region_bytes(region)),
        opened matches Err(error) ==> error == StoreError::DamagedRegion,
{
    let head = region_head(&region);
    if map_head_opens(head.as_slice()) {
        Ok(Table::init(region))
    } else {
        Err(StoreError::DamagedRegion)
    }
}

/// Opens the cell in the region, unless the region holds a cell of a layout
/// that cannot be opened. A region that holds no cell gets one that holds
/// `start`.
pub fn open_cell(region: Region, start: u64) -> (opened: Result<IdCell, StoreError>)
    ensures
        opened is Ok <==> cell_opens(head_of(region_bytes(region))),
        opened matches Ok(cell) ==> cell_region(cell) == region_number(region) && cell_value(
            cell,
        ) == found_value(region_bytes(region), start),
        opened matches Err(error) ==> error == StoreError::DamagedRegion,
{
    let head = region_head(&region);
    if cell_head_opens(head.as_slice()) {
        Ok(IdCell::init(region, start))
    } else {
        Err(StoreError::DamagedRegion)
    }
}

} // verus!
