//! Network bring-up state machine.
//!
//! At boot the node drives its radio and network stack through a fixed
//! sequence of states before the first telemetry send is allowed:
//! `RadioOff -> RadioReady -> Joining -> Joined -> WaitingAddress ->
//! AddressUp -> WaitingLink -> LinkUp -> Ready`. A failed association
//! attempt keeps the machine in `Joining`, so joining is retried
//! indefinitely; no other event moves the machine backwards.

use vstd::prelude::*;
use crate::LinkState;

verus! {

/// Observations reported by the radio driver and the network stack while the
/// node boots. The caller (the boot task) feeds them to [`step`] in the order
/// they happen.
#[derive(Clone, Copy, PartialEq, Eq, Structural, Debug)]
pub enum LinkEvent {
    /// Radio power-up and firmware load finished.
    RadioInitialised,
    /// An association attempt with the configured credentials has started.
    JoinAttemptStarted,
    /// The association attempt succeeded.
    JoinSucceeded,
    /// The association attempt failed; the machine stays in `Joining` and
    /// the caller re-attempts.
    JoinFailed,
    /// Polling for an assigned address has started.
    AddressPollStarted,
    /// The network stack reports a usable address.
    AddressAcquired,
    /// Polling for link carrier has started.
    LinkPollStarted,
    /// Link carrier is confirmed present.
    LinkConfirmed,
    /// The stack reports itself fully configured; the machine is `Ready`.
    StackConfigured,
}

/// The transition function of the bring-up machine. An event that does not
/// apply in the current state leaves the state unchanged.
pub open spec fn spec_step(s: LinkState, e: LinkEvent) -> LinkState {
    match (s, e) {
        (LinkState::RadioOff, LinkEvent::RadioInitialised) => LinkState::RadioReady,
        (LinkState::RadioReady, LinkEvent::JoinAttemptStarted) => LinkState::Joining,
        (LinkState::Joining, LinkEvent::JoinSucceeded) => LinkState::Joined,
        (LinkState::Joining, LinkEvent::JoinFailed) => LinkState::Joining,
        (LinkState::Joined, LinkEvent::AddressPollStarted) => LinkState::WaitingAddress,
        (LinkState::WaitingAddress, LinkEvent::AddressAcquired) => LinkState::AddressUp,
        (LinkState::AddressUp, LinkEvent::LinkPollStarted) => LinkState::WaitingLink,
        (LinkState::WaitingLink, LinkEvent::LinkConfirmed) => LinkState::LinkUp,
        (LinkState::LinkUp, LinkEvent::StackConfigured) => LinkState::Ready,
        (_, _) => s,
    }
}

/// Advance the machine by one observed event.
pub fn step(s: LinkState, e: LinkEvent) -> (r: LinkState)
    ensures
        r == spec_step(s, e),
{
    match (s, e) {
        (LinkState::RadioOff, LinkEvent::RadioInitialised) => LinkState::RadioReady,
        (LinkState::RadioReady, LinkEvent::JoinAttemptStarted) => LinkState::Joining,
        (LinkState::Joining, LinkEvent::JoinSucceeded) => LinkState::Joined,
        (LinkState::Joining, LinkEvent::JoinFailed) => LinkState::Joining,
        (LinkState::Joined, LinkEvent::AddressPollStarted) => LinkState::WaitingAddress,
        (LinkState::WaitingAddress, LinkEvent::AddressAcquired) => LinkState::AddressUp,
        (LinkState::AddressUp, LinkEvent::LinkPollStarted) => LinkState::WaitingLink,
        (LinkState::WaitingLink, LinkEvent::LinkConfirmed) => LinkState::LinkUp,
        (LinkState::LinkUp, LinkEvent::StackConfigured) => LinkState::Ready,
        (_, _) => s,
    }
}

/// The machine after a whole sequence of events, oldest first.
pub open spec fn spec_run(s: LinkState, es: Seq<LinkEvent>) -> LinkState
    decreases es.len(),
{
    if es.len() == 0 {
        s
    } else {
        spec_run(spec_step(s, es[0]), es.drop_first())
    }
}

/// Running two event sequences one after the other is running their
/// concatenation.
pub proof fn lemma_run_concat(s: LinkState, a: Seq<LinkEvent>, b: Seq<LinkEvent>)
    ensures
        spec_run(s, a + b) == spec_run(spec_run(s, a), b),
    decreases a.len(),
{
    if a.len() == 0 {
        assert(a + b =~= b);
    } else {
        assert((a + b).drop_first() =~= a.drop_first() + b);
        lemma_run_concat(spec_step(s, a[0]), a.drop_first(), b);
    }
}

/// Association failures never abort the machine: any number of consecutive
/// failed join attempts leaves it in `Joining`, still retrying.
pub proof fn lemma_join_failures_keep_retrying(k: nat)
    ensures
        spec_run(LinkState::Joining, Seq::new(k, |i: int| LinkEvent::JoinFailed))
            == LinkState::Joining,
    decreases k,
{
    let es = Seq::new(k, |i: int| LinkEvent::JoinFailed);
    if k > 0 {
        assert(es.drop_first() =~= Seq::new((k - 1) as nat, |i: int| LinkEvent::JoinFailed));
        lemma_join_failures_keep_retrying((k - 1) as nat);
    }
}

/// The straight-line tail of a boot: once joined, polling the address, the
/// link and the stack configuration brings the machine to `Ready`.
pub open spec fn after_join_events() -> Seq<LinkEvent> {
    seq![
        LinkEvent::AddressPollStarted,
        LinkEvent::AddressAcquired,
        LinkEvent::LinkPollStarted,
        LinkEvent::LinkConfirmed,
        LinkEvent::StackConfigured,
    ]
}

/// A full boot trace in which the first `k` association attempts fail and the
/// next one succeeds.
pub open spec fn boot_trace(k: nat) -> Seq<LinkEvent> {
    seq![LinkEvent::RadioInitialised, LinkEvent::JoinAttemptStarted]
        + Seq::new(k, |i: int| LinkEvent::JoinFailed)
        + seq![LinkEvent::JoinSucceeded]
        + after_join_events()
}

/// Join retry: however many association attempts fail before one succeeds,
/// the machine never aborts and the boot trace still ends in `Ready`.
pub proof fn lemma_join_retry_reaches_ready(k: nat)
    ensures
        spec_run(LinkState::RadioOff, boot_trace(k)) == LinkState::Ready,
{
    let start = seq![LinkEvent::RadioInitialised, LinkEvent::JoinAttemptStarted];
    let fails = Seq::new(k, |i: int| LinkEvent::JoinFailed);
    let rest = seq![LinkEvent::JoinSucceeded] + after_join_events();
    lemma_run_concat(LinkState::RadioOff, start, fails + rest);
    assert(spec_run(LinkState::RadioOff, start) == LinkState::Joining) by {
        reveal_with_fuel(spec_run, 3);
        assert(start.drop_first() =~= seq![LinkEvent::JoinAttemptStarted]);
        assert(seq![LinkEvent::JoinAttemptStarted].drop_first() =~= Seq::<LinkEvent>::empty());
    }
    lemma_run_concat(LinkState::Joining, fails, rest);
    lemma_join_failures_keep_retrying(k);
    assert(boot_trace(k) =~= start + (fails + rest));
    assert(spec_run(LinkState::Joining, rest) == LinkState::Ready) by {
        reveal_with_fuel(spec_run, 7);
        assert(rest =~= seq![
            LinkEvent::JoinSucceeded,
            LinkEvent::AddressPollStarted,
            LinkEvent::AddressAcquired,
            LinkEvent::LinkPollStarted,
            LinkEvent::LinkConfirmed,
            LinkEvent::StackConfigured,
        ]);
    }
}

/// The only transition into `Ready` is `StackConfigured` taken in `LinkUp`.
pub proof fn lemma_ready_needs_stack_configured(s: LinkState, e: LinkEvent)
    requires
        s != LinkState::Ready,
        spec_step(s, e) == LinkState::Ready,
    ensures
        s == LinkState::LinkUp && e == LinkEvent::StackConfigured,
{
}

/// A machine that has not seen `StackConfigured` is not `Ready`: together
/// with the readiness test in the uplink worker this is why no request can
/// be issued before bring-up has finished.
pub proof fn lemma_not_ready_before_stack_configured(s: LinkState, es: Seq<LinkEvent>)
    requires
        s != LinkState::Ready,
        spec_run(s, es) == LinkState::Ready,
    ensures
        exists|i: int| 0 <= i < es.len() && es[i] == LinkEvent::StackConfigured,
    decreases es.len(),
{
    if es.len() == 0 {
    } else {
        let s1 = spec_step(s, es[0]);
        if s1 == LinkState::Ready {
            lemma_ready_needs_stack_configured(s, es[0]);
            assert(es[0] == LinkEvent::StackConfigured);
        } else {
            lemma_not_ready_before_stack_configured(s1, es.drop_first());
            let j = choose|j: int|
                0 <= j < es.drop_first().len()
                    && es.drop_first()[j] == LinkEvent::StackConfigured;
            assert(es[j + 1] == LinkEvent::StackConfigured);
        }
    }
}

/// No premature send, over a whole boot: as long as the stack has never
/// reported itself configured, the machine started at `RadioOff` is not
/// `Ready` — and the uplink worker only ever builds a request in `Ready`.
pub proof fn lemma_no_premature_send(es: Seq<LinkEvent>)
    requires
        forall|i: int| 0 <= i < es.len() ==> es[i] != LinkEvent::StackConfigured,
    ensures
        spec_run(LinkState::RadioOff, es) != LinkState::Ready,
{
    if spec_run(LinkState::RadioOff, es) == LinkState::Ready {
        lemma_not_ready_before_stack_configured(LinkState::RadioOff, es);
    }
}

} // verus!
