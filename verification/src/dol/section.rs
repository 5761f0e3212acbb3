use vstd::prelude::*;

verus! {

/// A part of the file and where it is loaded.
#[derive(Clone, Copy, Debug, PartialEq, Eq, Structural)]
pub struct Section {
    pub offset: u32,
    pub load_address: u32,
    pub size: u32,
}

impl Section {
    /// Whether the four bytes at a load address lie in the section.
    pub open spec fn maps(self, address: u32) -> bool {
        self.load_address <= address && address - self.load_address + 3 < self.size
    }

    /// The offset in the file of a load address that the section maps.
    pub open spec fn file_offset(self, address: u32) -> int {
        self.offset + (address - self.load_address)
    }

    /// The offset in the file of the word at a load address, if its four
    /// bytes lie in the section and the offset is a 32-bit number.
    pub fn offset_for_dword_address(self, address: u32) -> (r: Option<u32>)
        ensures
            r is Some <==> self.maps(address) && self.file_offset(address) <= u32::MAX,
            r is Some ==> r->0 == self.file_offset(address),
    {
        let offset_within_section = match address.checked_sub(self.load_address) {
            Some(offset) => offset,
            None => {
                return None;
            },
        };
        let final_offset_within_section = match offset_within_section.checked_add(3) {
            Some(offset) => offset,
            None => {
                return None;
            },
        };
        if final_offset_within_section < self.size {
            self.offset.checked_add(offset_within_section)
        } else {
            None
        }
    }
}

} // verus!
