use vstd::prelude::*;

use crate::dol::reader::Reader;
use crate::dol::reader::section_at;
use crate::dol::section::Section;
use crate::dol::SECTION_COUNT;

verus! {

/// Walks the sections of a file in the order of their slots.
pub struct SectionsIter<'data> {
    pub reader: Reader<'data>,
    pub index: usize,
}

impl<'data> SectionsIter<'data> {
    /// The next section, if there is one left.
    pub fn next(&mut self) -> (r: Option<Section>)
        ensures
            final(self).reader == old(self).reader,
            old(self).index < SECTION_COUNT ==> r == Some(
                section_at(old(self).reader.bytes(), old(self).index as int),
            ) && final(self).index == old(self).index + 1,
            old(self).index >= SECTION_COUNT ==> r is None && final(self).index == old(self).index,
    {
        if self.index < SECTION_COUNT {
            let result = Some(self.reader.section(self.index));
            self.index += 1;
            result
        } else {
            None
        }
    }

    /// How many sections are left.
    pub fn len(&self) -> (r: usize)
        ensures
            r == if self.index < SECTION_COUNT {
                SECTION_COUNT - self.index
            } else {
                0
            },
    {
        if self.index < SECTION_COUNT {
            SECTION_COUNT - self.index
        } else {
            0
        }
    }
}

} // verus!
