//! Error kinds raised by the simulator core.

use vstd::prelude::*;

verus! {

/// The fatal error kinds of the simulator: bad configuration, a DRAM
/// address that is not line-aligned, and a malformed input text.
#[derive(Debug, Clone, Copy, PartialEq, Eq, Structural)]
pub enum GcnError {
    InvalidConfig,
    InvalidAddress,
    IoError,
}

} // verus!
