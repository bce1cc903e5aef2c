//! Messages to the network I/O task.

use vstd::prelude::*;

verus! {

/// A request to send a frame, as octets ready for the wire.
pub struct SendPacket(pub Vec<u8>);

} // verus!
