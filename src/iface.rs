//! The network device as the I/O layer drives it.

pub mod tap;
