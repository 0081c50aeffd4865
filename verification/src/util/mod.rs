//! Building blocks shared by the kernel modules.

pub mod bit_set;
pub mod constant;
pub mod init_cell;
pub mod integer;
pub mod mutex_int;
pub mod sync_wrapper;
