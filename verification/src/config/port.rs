//! Ports, counted from zero: P1 is 0.
use vstd::prelude::*;

verus! {

/// P7, where the coin acceptor and the third hopper live.
pub const P7: u8 = 6;

/// P8, where the dispenser and the coin hopper live.
pub const P8: u8 = 7;

} // verus!
