//! The single-slot handoff between the sampler and the uplink worker.
//!
//! The slot is an `embassy_sync` channel of capacity one, carrying a sample
//! in plain pair form. Capacity one gives the backpressure the design asks
//! for: at most one unread sample exists at any time, and a new publish can
//! only succeed once the previous sample has been taken.

use vstd::prelude::*;
use embassy_sync::blocking_mutex::raw::CriticalSectionRawMutex;
use embassy_sync::channel::Channel;
use crate::measurement::Measurement;

verus! {

/// The single-slot handoff buffer: an `embassy_sync` channel of capacity
/// one, carrying samples in plain pair form. Held behind an opaque struct
/// because Verus cannot see through the channel type itself.
#[verifier::external_body]
pub struct SlotChannel {
    inner: Channel<CriticalSectionRawMutex, (i64, i64), 1>,
}

/// The samples queued in the slot, oldest first, each as
/// `(temperature, humidity)` in hundredths.
pub uninterp spec fn slot_items(c: SlotChannel) -> Seq<(i64, i64)>;

/// Relies on embassy_sync::channel::Channel::new: a new channel is empty.
#[verifier::external_body]
fn slot_new() -> (r: SlotChannel)
    ensures
        slot_items(r) == Seq::<(i64, i64)>::empty(),
{
    SlotChannel { inner: Channel::new() }
}

/// Relies on embassy_sync::channel::Channel::try_send: queues the message at
/// the back when the channel holds fewer messages than its capacity (one
/// here), otherwise changes nothing and reports failure.
#[verifier::external_body]
fn slot_try_send(c: &mut SlotChannel, m: (i64, i64)) -> (r:
    bool)
    ensures
        r == (slot_items(*old(c)).len() < 1),
        r ==> slot_items(*final(c)) == slot_items(*old(c)).push(m),
        !r ==> slot_items(*final(c)) == slot_items(*old(c)),
{
    c.inner.try_send(m).is_ok()
}

/// Relies on embassy_sync::channel::Channel::try_receive: takes and returns
/// the oldest queued message, or reports the channel empty.
#[verifier::external_body]
fn slot_try_receive(c: &mut SlotChannel) -> (r: Option<(i64, i64)>)
    ensures
        slot_items(*old(c)).len() == 0 ==> r is None && slot_items(*final(c)) == slot_items(
            *old(c),
        ),
        slot_items(*old(c)).len() > 0 ==> r == Some(slot_items(*old(c))[0]) && slot_items(
            *final(c),
        ) == slot_items(*old(c)).drop_first(),
{
    match c.inner.try_receive() {
        Ok(m) => Some(m),
        Err(_) => None,
    }
}

/// The producer/consumer handoff, with counters of how many samples were
/// ever published and taken.
pub struct MeasurementChannel {
    slot: SlotChannel,
    sent: u64,
    taken: u64,
}

impl MeasurementChannel {
    /// The samples currently pending, oldest first.
    pub closed spec fn pending(self) -> Seq<(i64, i64)> {
        slot_items(self.slot)
    }

    /// How many samples were ever published.
    pub closed spec fn spec_sent(self) -> u64 {
        self.sent
    }

    /// How many samples were ever taken.
    pub closed spec fn spec_taken(self) -> u64 {
        self.taken
    }

    /// The channel invariant: at most one sample is pending, and the
    /// counters account for every published sample.
    pub open spec fn wf(self) -> bool {
        &&& self.pending().len() <= 1
        &&& self.spec_sent() == self.spec_taken() + self.pending().len()
        &&& forall|i: int| 0 <= i < self.pending().len()
            ==> (Measurement {
                temperature_centi: (#[trigger] self.pending()[i]).0,
                humidity_centi: self.pending()[i].1,
            }).wf()
    }

    pub fn new() -> (r: MeasurementChannel)
        ensures
            r.wf(),
            r.pending() == Seq::<(i64, i64)>::empty(),
            r.spec_sent() == 0,
            r.spec_taken() == 0,
    {
        MeasurementChannel { slot: slot_new(), sent: 0, taken: 0 }
    }

    /// Publish one sample. Succeeds exactly when every sample published so
    /// far has already been taken; otherwise the previous sample is still
    /// pending and the sampler has to wait (backpressure).
    pub fn try_publish(&mut self, m: Measurement) -> (r: bool)
        requires
            old(self).wf(),
            old(self).spec_sent() < u64::MAX,
            m.wf(),
        ensures
            final(self).wf(),
            r <==> old(self).spec_sent() == old(self).spec_taken(),
            r <==> old(self).pending().len() == 0,
            r ==> final(self).pending() == seq![(m.temperature_centi, m.humidity_centi)]
                && final(self).spec_sent() == old(self).spec_sent() + 1,
            !r ==> final(self).pending() == old(self).pending() && final(self).spec_sent()
                == old(self).spec_sent(),
            final(self).spec_taken() == old(self).spec_taken(),
    {
        let ok = slot_try_send(&mut self.slot, m.to_pair());
        if ok {
            self.sent = self.sent + 1;
            proof {
                assert(self.pending() =~= seq![(m.temperature_centi, m.humidity_centi)]);
            }
        }
        ok
    }

    /// Take the pending sample, if there is one.
    pub fn try_take(&mut self) -> (r: Option<Measurement>)
        requires
            old(self).wf(),
        ensures
            final(self).wf(),
            r is Some <==> old(self).pending().len() > 0,
            r matches Some(m) ==> (m.temperature_centi, m.humidity_centi)
                == old(self).pending()[0] && m.wf() && final(self).pending().len() == 0
                && final(self).spec_taken() == old(self).spec_taken() + 1,
            r is None ==> final(self).pending() == old(self).pending()
                && final(self).spec_taken() == old(self).spec_taken(),
            final(self).spec_sent() == old(self).spec_sent(),
    {
        match slot_try_receive(&mut self.slot) {
            Some(p) => {
                proof {
                    assert(old(self).pending().drop_first().len() == 0);
                }
                self.taken = self.taken + 1;
                Some(Measurement::from_pair(p))
            },
            None => None,
        }
    }
}

/// Channel backpressure: under the invariant, at most one sample is ever
/// pending, and the number published never runs more than one ahead of the
/// number taken.
pub proof fn lemma_backpressure(c: MeasurementChannel)
    requires
        c.wf(),
    ensures
        c.pending().len() <= 1,
        c.spec_sent() <= c.spec_taken() + 1,
{
}

} // verus!
