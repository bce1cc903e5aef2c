//! Settings of the stack.

use vstd::prelude::*;
use vstd::string::StringExecFns;

verus! {

/// Settings of the stack.
#[derive(Debug, Clone)]
pub struct Config {
    pub log_level: String,
    pub frame_rx_max_len: usize,
    pub mac_address: String,
    pub ipv6_support: bool,
    pub ipv4_support: bool,
}

impl Config {
    /// The default settings: log level `info`, frames of up to 2048 octets,
    /// MAC address 02:00:00:77:77:77, IPv4 and IPv6 both on.
    pub fn new() -> (r: Self)
        ensures
            r.log_level@ == "info"@,
            r.frame_rx_max_len == 2048,
            r.mac_address@ == "02:00:00:77:77:77"@,
            r.ipv6_support,
            r.ipv4_support,
    {
        Config {
            log_level: String::from_str("info"),
            frame_rx_max_len: 2048,
            ipv6_support: true,
            ipv4_support: true,
            mac_address: String::from_str("02:00:00:77:77:77"),
        }
    }

    /// Applies the settings. The core keeps no state of its own, so there
    /// is nothing for it to change; the I/O layer reads the fields.
    pub fn apply(&self) {
    }
}

} // verus!
