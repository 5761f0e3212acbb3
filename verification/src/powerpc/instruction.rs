pub mod branch_info;
pub mod decoded_instruction;
pub mod encoded_instruction;
pub mod format_small_i16;
pub mod format_small_u16;
pub mod text;
