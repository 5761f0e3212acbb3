use vstd::prelude::*;
use vstd::slice::slice_subrange;

use crate::text::escape;
use crate::text::escaped;

verus! {

/// The size in bytes of a GameCube disc header.
pub const HEADER_SIZE: usize = 8;

/// The header of a disc image.
#[derive(Clone, Copy, Debug)]
pub struct HeaderReader<'data> {
    data: &'data [u8],
}

impl<'data> HeaderReader<'data> {
    /// The bytes of the header.
    pub closed spec fn bytes(&self) -> Seq<u8> {
        self.data@
    }

    /// The reader holds a whole header.
    #[verifier::type_invariant]
    pub closed spec fn whole(&self) -> bool {
        self.data@.len() == HEADER_SIZE
    }

    /// Reads the header that the data begin with.
    pub fn new(data: &'data [u8]) -> (r: HeaderReader<'data>)
        requires
            data@.len() >= HEADER_SIZE,
        ensures
            r.bytes() == data@.take(HEADER_SIZE as int),
    {
        let kept = slice_subrange(data, 0, HEADER_SIZE);
        proof {
            assert(kept@ =~= data@.take(HEADER_SIZE as int));
        }
        HeaderReader { data: kept }
    }

    /// The four characters of the game code, as they stand in a listing.
    pub fn game_code(&self) -> (r: String)
        ensures
            r@ == escaped(self.bytes().subrange(0, 4)),
    {
        proof {
            use_type_invariant(self);
        }
        escape(slice_subrange(self.data, 0, 4))
    }

    /// The two characters of the maker code, as they stand in a listing.
    pub fn maker_code(&self) -> (r: String)
        ensures
            r@ == escaped(self.bytes().subrange(4, 6)),
    {
        proof {
            use_type_invariant(self);
        }
        escape(slice_subrange(self.data, 4, 6))
    }

    pub fn disc_id(&self) -> (r: u8)
        ensures
            self.bytes().len() == HEADER_SIZE,
            r == self.bytes()[6],
    {
        proof {
            use_type_invariant(self);
        }
        self.data[6]
    }

    pub fn version(&self) -> (r: u8)
        ensures
            self.bytes().len() == HEADER_SIZE,
            r == self.bytes()[7],
    {
        proof {
            use_type_invariant(self);
        }
        self.data[7]
    }
}

} // verus!
