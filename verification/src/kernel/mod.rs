//! The kernel proper: memory management and interrupt bookkeeping.

pub mod interrupt;
pub mod memory;
