//! The device registry of the control service.

pub mod candidates;
pub mod control;
pub mod device;
pub mod laws;
pub mod order;
pub mod pool;
pub mod rows;
pub mod rules;
pub mod tables;
