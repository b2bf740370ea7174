//! The records the vault keeps: the pool aggregate and the positions.

pub mod pool;
pub mod position_store;
pub mod user_position;
