//! Static analysis core for 32-bit PowerPC code taken from a GameCube
//! executable: an instruction decoder, a fact database filled by a code
//! discovery pass, a basic-block builder, and a symbolic executor over an
//! interned expression graph.

pub mod powerpc;
pub mod address_set;
pub mod work_set;
pub mod symbolic;
pub mod fact;
pub mod powerpc_symbolic;
pub mod fact_database;
pub mod machine;
pub mod big_endian;
pub mod dol;
pub mod discovery;
pub mod basic_blocks;
pub mod expressions;
pub mod text;
pub mod gamecube_disc;
pub mod iter_singleton;
pub mod discovered;
