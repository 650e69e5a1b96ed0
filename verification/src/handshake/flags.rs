//! Capability bits of the handshake.

use vstd::prelude::*;

verus! {

/// The sender supports zero-copy responses.
pub const ZERO_COPY_CAPABLE: u16 = 1;

/// The sender supports protocol splitting.
pub const SPLIT_MODE_CAPABLE: u16 = 2;

} // verus!
