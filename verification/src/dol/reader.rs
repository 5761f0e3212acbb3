use vstd::prelude::*;
use vstd::slice::slice_subrange;

use crate::big_endian::word;
use crate::big_endian::word_at;
use crate::dol::section::Section;
use crate::dol::SECTION_COUNT;
use crate::dol::sections_iter::SectionsIter;

verus! {

pub const ENTRY_POINT_OFFSET: usize = 0xe0;

pub const SECTION_OFFSET_TABLE_OFFSET: usize = 0;

pub const SECTION_LOAD_ADDRESS_TABLE_OFFSET: usize = 0x48;

pub const SECTION_SIZE_TABLE_OFFSET: usize = 0x90;

/// Where the three tables of the header end.
pub const TABLES_END: usize = 0xd8;

/// The section that the header of a file describes in its slot `index`.
pub open spec fn section_at(bytes: Seq<u8>, index: int) -> Section {
    Section {
        offset: word(bytes, 4 * index + SECTION_OFFSET_TABLE_OFFSET),
        load_address: word(bytes, 4 * index + SECTION_LOAD_ADDRESS_TABLE_OFFSET),
        size: word(bytes, 4 * index + SECTION_SIZE_TABLE_OFFSET),
    }
}

/// Where the first `count` sections end in the file: the greatest of their
/// ends.
pub open spec fn farthest_end(bytes: Seq<u8>, count: nat) -> int
    decreases count,
{
    if count == 0 {
        0
    } else {
        let before = farthest_end(bytes, (count - 1) as nat);
        let section = section_at(bytes, count - 1);
        if section.offset + section.size > before {
            section.offset + section.size
        } else {
            before
        }
    }
}

/// Whether a file can be read as a DOL: it holds the three tables of the
/// header, every section ends at an offset that is a 32-bit number, the file
/// holds every section, and the tables lie within what the sections cover.
pub open spec fn readable(bytes: Seq<u8>) -> bool {
    &&& bytes.len() >= TABLES_END
    &&& forall|i: int|
        0 <= i < SECTION_COUNT ==> (#[trigger] section_at(bytes, i)).offset + section_at(
            bytes,
            i,
        ).size <= u32::MAX
    &&& TABLES_END <= farthest_end(bytes, SECTION_COUNT as nat) <= bytes.len()
}

/// The first section from `from` on that maps the address to an offset that
/// is a 32-bit number.
pub open spec fn mapping(bytes: Seq<u8>, address: u32, from: nat) -> Option<Section>
    decreases SECTION_COUNT - from,
{
    if from >= SECTION_COUNT {
        None
    } else if section_at(bytes, from as int).maps(address) && section_at(
        bytes,
        from as int,
    ).file_offset(address) <= u32::MAX {
        Some(section_at(bytes, from as int))
    } else {
        mapping(bytes, address, from + 1)
    }
}

/// No section ends behind the farthest end.
proof fn lemma_farthest(bytes: Seq<u8>, count: nat, i: int)
    requires
        0 <= i < count,
    ensures
        section_at(bytes, i).offset + section_at(bytes, i).size <= farthest_end(bytes, count),
    decreases count,
{
    if i < count - 1 {
        lemma_farthest(bytes, (count - 1) as nat, i);
    }
}

/// A file reads the same, as far as the tables go, when it is cut off behind
/// them.
proof fn lemma_cut(bytes: Seq<u8>, end: int, i: int)
    requires
        TABLES_END <= end <= bytes.len(),
        0 <= i < SECTION_COUNT,
    ensures
        section_at(bytes.take(end), i) == section_at(bytes, i),
{
    let cut = bytes.take(end);
    assert(cut.subrange(4 * i, 4 * i + 4) =~= bytes.subrange(4 * i, 4 * i + 4));
    assert(cut.subrange(4 * i + 0x48, 4 * i + 0x48 + 4) =~= bytes.subrange(
        4 * i + 0x48,
        4 * i + 0x48 + 4,
    ));
    assert(cut.subrange(4 * i + 0x90, 4 * i + 0x90 + 4) =~= bytes.subrange(
        4 * i + 0x90,
        4 * i + 0x90 + 4,
    ));
}

/// The section in slot `index` of a file that holds the tables.
fn read_section(data: &[u8], index: usize) -> (r: Section)
    requires
        data@.len() >= TABLES_END,
        index < SECTION_COUNT,
    ensures
        r == section_at(data@, index as int),
{
    let offset = word_at(data, 4 * index + SECTION_OFFSET_TABLE_OFFSET);
    let load_address = word_at(data, 4 * index + SECTION_LOAD_ADDRESS_TABLE_OFFSET);
    let size = word_at(data, 4 * index + SECTION_SIZE_TABLE_OFFSET);
    Section { offset: offset.unwrap(), load_address: load_address.unwrap(), size: size.unwrap() }
}

/// A DOL file, of which only what its sections cover is kept.
#[derive(Clone, Copy, Debug, PartialEq, Eq)]
pub struct Reader<'data> {
    data: &'data [u8],
}

impl<'data> Reader<'data> {
    /// The bytes of the file that the reader keeps.
    pub closed spec fn bytes(&self) -> Seq<u8> {
        self.data@
    }

    /// The reader holds the tables of the header and every section that
    /// they describe.
    #[verifier::type_invariant]
    pub closed spec fn holds_sections(&self) -> bool {
        &&& self.data@.len() >= TABLES_END
        &&& forall|i: int|
            0 <= i < SECTION_COUNT ==> (#[trigger] section_at(self.data@, i)).offset + section_at(
                self.data@,
                i,
            ).size <= self.data@.len()
    }

    /// The word that is loaded to an address: that of the first section
    /// that maps the address.
    pub open spec fn word_at(&self, address: u32) -> Option<u32> {
        match mapping(self.bytes(), address, 0) {
            Some(section) => Some(word(self.bytes(), section.file_offset(address))),
            None => None,
        }
    }

    /// Reads a file as a DOL and keeps of it what its sections cover.
    pub fn new(data: &'data [u8]) -> (r: Reader<'data>)
        requires
            readable(data@),
        ensures
            r.bytes() == data@.take(farthest_end(data@, SECTION_COUNT as nat)),
    {
        Reader::try_new(data).unwrap()
    }

    /// Reads a file as a DOL, if it is one, and keeps of it what its
    /// sections cover.
    pub fn try_new(data: &'data [u8]) -> (r: Option<Reader<'data>>)
        ensures
            r is Some <==> readable(data@),
            r is Some ==> r->0.bytes() == data@.take(farthest_end(data@, SECTION_COUNT as nat)),
    {
        if data.len() < TABLES_END {
            return None;
        }
        // Bound the data slice.
        let mut farthest: u32 = 0;
        let mut index: usize = 0;
        while index < SECTION_COUNT
            invariant
                index <= SECTION_COUNT,
                data@.len() >= TABLES_END,
                farthest == farthest_end(data@, index as nat),
                forall|i: int|
                    0 <= i < index ==> (#[trigger] section_at(data@, i)).offset + section_at(
                        data@,
                        i,
                    ).size <= u32::MAX,
            decreases SECTION_COUNT - index,
        {
            let section = read_section(data, index);
            let end = match section.offset.checked_add(section.size) {
                Some(end) => end,
                None => {
                    return None;
                },
            };
            if end > farthest {
                farthest = end;
            }
            index += 1;
        }
        let end = farthest as usize;
        if end > data.len() || end < TABLES_END {
            return None;
        }
        let kept = slice_subrange(data, 0, end);
        proof {
            assert(kept@ =~= data@.take(end as int));
            assert forall|i: int| 0 <= i < SECTION_COUNT implies (#[trigger] section_at(
                kept@,
                i,
            )).offset + section_at(kept@, i).size <= kept@.len() by {
                lemma_cut(data@, end as int, i);
                lemma_farthest(data@, SECTION_COUNT as nat, i);
            }
        }
        Some(Reader { data: kept })
    }

    /// The section in slot `index` of the header.
    pub fn section(self, index: usize) -> (r: Section)
        requires
            index < SECTION_COUNT,
        ensures
            r == section_at(self.bytes(), index as int),
            r.offset + r.size <= self.bytes().len(),
    {
        proof {
            use_type_invariant(&self);
        }
        read_section(self.data, index)
    }

    pub fn iter_sections(self) -> (r: SectionsIter<'data>)
        ensures
            r.reader == self,
            r.index == 0,
    {
        SectionsIter { reader: self, index: 0 }
    }

    /// Whether what the reader keeps holds the address at which the
    /// program starts.
    pub open spec fn has_entry_point(&self) -> bool {
        ENTRY_POINT_OFFSET + 4 <= self.bytes().len()
    }

    /// The address at which the program starts.
    pub fn entry_point(self) -> (r: u32)
        requires
            self.has_entry_point(),
        ensures
            r == word(self.bytes(), ENTRY_POINT_OFFSET as int),
    {
        self.try_entry_point().unwrap()
    }

    /// The address at which the program starts, if what the reader keeps
    /// holds it.
    pub fn try_entry_point(self) -> (r: Option<u32>)
        ensures
            r is Some <==> self.has_entry_point(),
            r is Some ==> r->0 == word(self.bytes(), ENTRY_POINT_OFFSET as int),
    {
        word_at(self.data, ENTRY_POINT_OFFSET)
    }

    /// The word that is loaded to an address that a section maps.
    pub fn read(self, address: u32) -> (r: u32)
        requires
            self.word_at(address) is Some,
        ensures
            Some(r) == self.word_at(address),
    {
        self.try_read(address).unwrap()
    }

    /// The word that is loaded to an address, if a section maps the
    /// address.
    pub fn try_read(self, address: u32) -> (r: Option<u32>)
        ensures
            r == self.word_at(address),
    {
        proof {
            use_type_invariant(&self);
        }
        let mut index: usize = 0;
        while index < SECTION_COUNT
            invariant
                index <= SECTION_COUNT,
                self.holds_sections(),
                mapping(self.bytes(), address, 0) == mapping(self.bytes(), address, index as nat),
            decreases SECTION_COUNT - index,
        {
            let section = read_section(self.data, index);
            if let Some(offset) = section.offset_for_dword_address(address) {
                return word_at(self.data, offset as usize);
            }
            index += 1;
        }
        None
    }
}

} // verus!
