use vstd::prelude::*;
use vstd::slice::slice_subrange;

use crate::big_endian::word;
use crate::big_endian::word_at;
use crate::dol::reader::farthest_end;
use crate::dol::reader::readable;
use crate::dol::SECTION_COUNT;
use crate::gamecube_disc::fs_table_reader::FsTableReader;
use crate::gamecube_disc::header_reader::HEADER_SIZE;
use crate::gamecube_disc::header_reader::HeaderReader;
use crate::gamecube_disc::SIZE;

verus! {

pub const MAIN_EXECUTABLE_OFFSET: usize = 0x420;

pub const FILESYSTEM_TABLE_OFFSET_OFFSET: usize = 0x424;

pub const FILESYSTEM_TABLE_LENGTH_OFFSET: usize = 0x428;

/// A disc image.
#[derive(Clone, Copy, Debug)]
pub struct Reader<'data> {
    data: &'data [u8],
}

impl<'data> Reader<'data> {
    /// The bytes of the image.
    pub closed spec fn bytes(&self) -> Seq<u8> {
        self.data@
    }

    /// The reader holds a whole image.
    #[verifier::type_invariant]
    pub closed spec fn whole(&self) -> bool {
        self.data@.len() == SIZE
    }

    /// Reads the image that the data begin with.
    pub fn new(data: &'data [u8]) -> (r: Reader<'data>)
        requires
            data@.len() >= SIZE,
        ensures
            r.bytes() == data@.take(SIZE as int),
    {
        let kept = slice_subrange(data, 0, SIZE);
        proof {
            assert(kept@ =~= data@.take(SIZE as int));
        }
        Reader { data: kept }
    }

    pub fn header(&self) -> (r: HeaderReader<'data>)
        ensures
            r.bytes() == self.bytes().take(HEADER_SIZE as int),
    {
        proof {
            use_type_invariant(self);
        }
        HeaderReader::new(self.data)
    }

    /// The offset at which the image says that its main executable begins.
    pub open spec fn executable_offset(&self) -> u32 {
        word(self.bytes(), MAIN_EXECUTABLE_OFFSET as int)
    }

    /// What the image holds from the offset of its main executable on.
    pub open spec fn executable_bytes(&self) -> Seq<u8> {
        self.bytes().skip(self.executable_offset() as int)
    }

    /// Whether the image holds a DOL file at the offset of its main
    /// executable.
    pub open spec fn has_main_executable(&self) -> bool {
        self.executable_offset() <= self.bytes().len() && readable(self.executable_bytes())
    }

    /// The main executable: the DOL file that begins at the offset that
    /// the image names.
    pub fn main_executable(&self) -> (r: crate::dol::reader::Reader<'data>)
        requires
            self.has_main_executable(),
        ensures
            r.bytes() == self.executable_bytes().take(
                farthest_end(self.executable_bytes(), SECTION_COUNT as nat),
            ),
    {
        self.try_main_executable().unwrap()
    }

    /// The main executable, if the image holds a DOL file at the offset
    /// that it names.
    pub fn try_main_executable(&self) -> (r: Option<crate::dol::reader::Reader<'data>>)
        ensures
            r is Some <==> self.has_main_executable(),
            r is Some ==> r->0.bytes() == self.executable_bytes().take(
                farthest_end(self.executable_bytes(), SECTION_COUNT as nat),
            ),
    {
        proof {
            use_type_invariant(self);
        }
        let offset = word_at(self.data, MAIN_EXECUTABLE_OFFSET).unwrap() as usize;
        if offset > self.data.len() {
            return None;
        }
        let file = slice_subrange(self.data, offset, self.data.len());
        proof {
            assert(file@ =~= self.executable_bytes());
        }
        crate::dol::reader::Reader::try_new(file)
    }

    /// The offset at which the image says that its file system table
    /// begins.
    pub open spec fn table_offset(&self) -> u32 {
        word(self.bytes(), FILESYSTEM_TABLE_OFFSET_OFFSET as int)
    }

    /// The length that the image gives for its file system table.
    pub open spec fn table_len(&self) -> u32 {
        word(self.bytes(), FILESYSTEM_TABLE_LENGTH_OFFSET as int)
    }

    /// Whether the image holds its file system table.
    pub open spec fn has_fs_table(&self) -> bool {
        self.table_offset() + self.table_len() <= self.bytes().len()
    }

    /// The file system table: the bytes at the offset and of the length
    /// that the image names.
    pub fn fs_table(&self) -> (r: FsTableReader<'data>)
        requires
            self.has_fs_table(),
        ensures
            r.bytes() == self.bytes().subrange(
                self.table_offset() as int,
                self.table_offset() + self.table_len(),
            ),
    {
        self.try_fs_table().unwrap()
    }

    /// The file system table, if the image holds the bytes at the offset
    /// and of the length that it names.
    pub fn try_fs_table(&self) -> (r: Option<FsTableReader<'data>>)
        ensures
            r is Some <==> self.has_fs_table(),
            r is Some ==> r->0.bytes() == self.bytes().subrange(
                self.table_offset() as int,
                self.table_offset() + self.table_len(),
            ),
    {
        proof {
            use_type_invariant(self);
        }
        let offset = word_at(self.data, FILESYSTEM_TABLE_OFFSET_OFFSET).unwrap() as u64;
        let len = word_at(self.data, FILESYSTEM_TABLE_LENGTH_OFFSET).unwrap() as u64;
        if offset + len > self.data.len() as u64 {
            return None;
        }
        let table = slice_subrange(self.data, offset as usize, (offset + len) as usize);
        Some(FsTableReader::new(table))
    }

    /// Looks a file up by its path. The file system table is not searched:
    /// no file is found.
    pub fn find_file(&self, _path: &str) -> (r: Option<&'data [u8]>)
        ensures
            r is None,
    {
        None
    }
}

} // verus!
