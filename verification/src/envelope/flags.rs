//! Envelope flag bits.

use vstd::prelude::*;

verus! {

/// The payload is empty; the message exists only to replenish credits.
pub const CREDIT_ONLY: u16 = 1;

} // verus!
