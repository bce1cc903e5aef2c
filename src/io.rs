//! Messages exchanged with the I/O layer.

pub mod network_io;
