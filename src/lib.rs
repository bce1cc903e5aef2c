//! Packet-level data plane of a user-space network stack: validated,
//! zero-copy views over Ethernet, ARP, IPv4 and IPv6 headers, writers that
//! compose those headers in place, and the address types they embed.

pub mod address;
pub mod assemblers;
pub mod config;
pub mod iface;
pub mod io;
pub mod parsers;
