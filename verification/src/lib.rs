//! Core pipeline of an environmental sensor node: the network bring-up state
//! machine, the single-slot measurement handoff, and the per-reading request
//! construction (JSON body and target URL) for HTTPS delivery.

use vstd::prelude::*;

pub mod channel;
pub mod json;
pub mod link;
pub mod measurement;
pub mod uplink;
pub mod url;

verus! {

/// States of the network bring-up state machine, in the order they are
/// normally traversed at boot.
#[derive(Clone, Copy, PartialEq, Eq, Structural, Debug)]
pub enum LinkState {
    RadioOff,
    RadioReady,
    Joining,
    Joined,
    WaitingAddress,
    AddressUp,
    WaitingLink,
    LinkUp,
    Ready,
}

/// Whether bring-up has finished: only then may the uplink worker send.
pub fn link_state_is_ready(s: LinkState) -> (r: bool)
    ensures
        r == (s == LinkState::Ready),
{
    s == LinkState::Ready
}

} // verus!
