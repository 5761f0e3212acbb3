pub mod bo;
pub mod condition_behavior;
pub mod ctr_behavior;
