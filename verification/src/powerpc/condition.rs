pub mod condition;
pub mod condition_bit;
pub mod negative_condition;
pub mod positive_condition;
