//! The GameCube disc image: a header, the main executable and a file
//! system table.

use vstd::prelude::*;

pub mod fs_table_reader;
pub mod header_reader;
pub mod reader;

verus! {

/// The size in bytes of a GameCube disc image.
pub const SIZE: usize = 1459978240;

} // verus!
