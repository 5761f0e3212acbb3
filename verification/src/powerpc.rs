//! The PowerPC register model and instruction decoder.

pub mod branch;
pub mod condition;
pub mod cr_constants;
pub mod gpr_constants;
pub mod instruction;
pub mod register;
pub mod text;
