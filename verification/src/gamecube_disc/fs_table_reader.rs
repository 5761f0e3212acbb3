use vstd::prelude::*;
use vstd::slice::slice_subrange;

use crate::big_endian::word;
use crate::big_endian::word_at;

verus! {

pub const ROOT_ENTRY_COUNT_OFFSET: usize = 0x8;

pub const STRING_TABLE_ENTRY_SIZE: usize = 0xc;

/// The file system table of a disc image.
#[derive(Clone, Copy, Debug)]
pub struct FsTableReader<'data> {
    data: &'data [u8],
}

impl<'data> FsTableReader<'data> {
    /// The bytes of the table.
    pub closed spec fn bytes(&self) -> Seq<u8> {
        self.data@
    }

    pub fn new(data: &'data [u8]) -> (r: FsTableReader<'data>)
        ensures
            r.bytes() == data@,
    {
        FsTableReader { data }
    }

    /// Whether the table holds the number of its entries.
    pub open spec fn has_entry_count(&self) -> bool {
        ROOT_ENTRY_COUNT_OFFSET + 4 <= self.bytes().len()
    }

    /// The number of entries that the table names.
    pub open spec fn entry_count(&self) -> u32 {
        word(self.bytes(), ROOT_ENTRY_COUNT_OFFSET as int)
    }

    /// Whether the table holds the number of its entries and all of them.
    pub open spec fn has_entries(&self) -> bool {
        self.has_entry_count() && self.entry_count() * STRING_TABLE_ENTRY_SIZE <= self.bytes().len()
    }

    /// The number of entries of the table.
    pub fn root_entry_count(&self) -> (r: u32)
        requires
            self.has_entry_count(),
        ensures
            r == self.entry_count(),
    {
        self.try_root_entry_count().unwrap()
    }

    /// The number of entries of the table, if the table holds it.
    pub fn try_root_entry_count(&self) -> (r: Option<u32>)
        ensures
            r is Some <==> self.has_entry_count(),
            r is Some ==> r->0 == self.entry_count(),
    {
        word_at(self.data, ROOT_ENTRY_COUNT_OFFSET)
    }

    /// The names of the files: what stands behind the entries of the
    /// table.
    pub fn string_table(&self) -> (r: &'data [u8])
        requires
            self.has_entries(),
        ensures
            r@ == self.bytes().skip(self.entry_count() * STRING_TABLE_ENTRY_SIZE),
    {
        self.try_string_table().unwrap()
    }

    /// The names of the files: what stands behind the entries of the
    /// table, if the table holds all of its entries.
    pub fn try_string_table(&self) -> (r: Option<&'data [u8]>)
        ensures
            r is Some <==> self.has_entries(),
            r is Some ==> r->0@ == self.bytes().skip(self.entry_count() * STRING_TABLE_ENTRY_SIZE),
    {
        let count = match self.try_root_entry_count() {
            Some(count) => count,
            None => {
                return None;
            },
        };
        let start: u64 = count as u64 * STRING_TABLE_ENTRY_SIZE as u64;
        if start > self.data.len() as u64 {
            return None;
        }
        let names = slice_subrange(self.data, start as usize, self.data.len());
        proof {
            assert(names@ =~= self.bytes().skip(start as int));
        }
        Some(names)
    }
}

} // verus!
