use vstd::prelude::*;

verus! {

/// Port on which a node listens for gossip unless it is told otherwise.
pub const CONST_INFECTION_PORT: u16 = 2000;

/// Largest datagram, in bytes, that one gossip message may fill.
pub const CONST_PACKET_SIZE: usize = 65536;

} // verus!
