//! The DOL executable: eighteen sections of a file that are loaded to
//! addresses of the machine.

use vstd::prelude::*;

pub mod reader;
pub mod section;
pub mod sections_iter;

verus! {

pub const SECTION_COUNT: usize = 18;

} // verus!
