//! Session arbitration ("ask the remote user for permission").

use vstd::prelude::*;

verus! {

/// Possible outcomes of the target-side session arbitration.
#[derive(Debug, Clone, Copy, PartialEq, Eq, Structural)]
pub enum ArbitrationOutcome {
    Allowed,
    Denied,
    HostIdle,
    HostInUse,
}

} // verus!
