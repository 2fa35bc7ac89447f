//! The refresh pipeline's hand-off contract: a background producer and a
//! foreground consumer share one single-slot channel. A send fills the
//! empty slot with the newest snapshot and blocks while it is full; the
//! consumer drains at most one snapshot per cycle without blocking. The
//! model counts snapshots, so "newer" is a larger number.

use vstd::prelude::*;

verus! {

/// The hand-off state: how many snapshots were produced, which one sits in
/// the slot, and which one the foreground last applied.
pub struct ChannelModel {
    pub produced: u64,
    pub slot: Option<u64>,
    pub applied: Option<u64>,
}

impl ChannelModel {
    /// The hand-off invariant: the slot only ever holds the newest
    /// snapshot, anything applied is older than what was produced, an
    /// empty slot means the newest snapshot was already applied (or
    /// nothing was produced), and a full slot is newer than anything
    /// applied.
    pub open spec fn wf(self) -> bool {
        &&& (self.applied is Some ==> self.applied->0 < self.produced)
        &&& (self.slot is Some ==> self.produced > 0 && self.slot->0 == self.produced - 1)
        &&& (self.slot is None ==> self.produced == 0 || self.applied == Some(
            (self.produced - 1) as u64,
        ))
        &&& (self.slot is Some && self.applied is Some ==> self.applied->0 < self.slot->0)
    }

    pub fn new() -> (c: ChannelModel)
        ensures
            c.produced == 0,
            c.slot is None,
            c.applied is None,
            c.wf(),
    {
        ChannelModel { produced: 0, slot: None, applied: None }
    }

    /// Whether the producer could deliver without blocking: only into an
    /// empty slot.
    pub fn can_send(&self) -> (r: bool)
        ensures
            r == (self.slot is None),
    {
        self.slot.is_none()
    }

    /// The producer delivers the next snapshot. It can only do so into an
    /// empty slot: a full slot blocks the sender, which is the
    /// backpressure that keeps the channel from buffering.
    pub fn send(&mut self)
        requires
            old(self).wf(),
            old(self).slot is None,
            old(self).produced < u64::MAX,
        ensures
            final(self).wf(),
            final(self).produced == old(self).produced + 1,
            final(self).slot == Some(old(self).produced),
            final(self).applied == old(self).applied,
    {
        self.slot = Some(self.produced);
        self.produced = self.produced + 1;
    }

    /// The foreground drains the slot without blocking: it applies the
    /// snapshot found there, if any, and frees the slot, unblocking the
    /// sender.
    pub fn try_recv(&mut self) -> (r: Option<u64>)
        requires
            old(self).wf(),
        ensures
            final(self).wf(),
            final(self).produced == old(self).produced,
            final(self).slot is None,
            old(self).slot is Some ==> r == old(self).slot && final(self).applied == old(
                self,
            ).slot,
            old(self).slot is None ==> r is None && final(self).applied == old(self).applied,
    {
        let r = self.slot;
        if r.is_some() {
            self.applied = r;
            self.slot = None;
        }
        r
    }
}

/// The two things that can happen to the hand-off: the producer tries to
/// deliver, or the foreground polls.
pub enum ChanEvent {
    Send,
    Recv,
}

/// One step of the hand-off: a send into a full slot blocks, so the state
/// does not move; a poll of an empty slot finds nothing.
pub open spec fn chan_step(c: ChannelModel, e: ChanEvent) -> ChannelModel {
    match e {
        ChanEvent::Send => if c.slot is None && c.produced < u64::MAX {
            ChannelModel {
                produced: (c.produced + 1) as u64,
                slot: Some(c.produced),
                applied: c.applied,
            }
        } else {
            c
        },
        ChanEvent::Recv => if c.slot is Some {
            ChannelModel { produced: c.produced, slot: None, applied: c.slot }
        } else {
            c
        },
    }
}

/// The state after a whole schedule of sends and polls, from the initial
/// empty hand-off.
pub open spec fn chan_run(events: Seq<ChanEvent>) -> ChannelModel
    decreases events.len(),
{
    if events.len() == 0 {
        ChannelModel { produced: 0, slot: None, applied: None }
    } else {
        chan_step(chan_run(events.drop_last()), events.last())
    }
}

/// One step preserves the hand-off invariant and never applies an older
/// snapshot: what the foreground applies only ever moves forward.
pub proof fn lemma_chan_step(c: ChannelModel, e: ChanEvent)
    requires
        c.wf(),
    ensures
        chan_step(c, e).wf(),
        c.applied is Some ==> chan_step(c, e).applied is Some && chan_step(c, e).applied->0
            >= c.applied->0,
        chan_step(c, e).applied != c.applied ==> chan_step(c, e).applied == Some(
            (c.produced - 1) as u64,
        ),
{
}

/// The hand-off contract, over every schedule: the invariant always
/// holds; whenever the foreground has drained the channel, what it applied
/// is exactly the newest snapshot produced, never an older one; and a poll
/// always leaves the slot free, so the sender is never blocked for good
/// once draining resumes.
pub proof fn lemma_hand_off(events: Seq<ChanEvent>)
    ensures
        chan_run(events).wf(),
        chan_run(events).slot is None && chan_run(events).produced > 0 ==> chan_run(
            events,
        ).applied == Some((chan_run(events).produced - 1) as u64),
        events.len() > 0 && events.last() is Recv ==> chan_run(events).slot is None,
    decreases events.len(),
{
    if events.len() > 0 {
        lemma_hand_off(events.drop_last());
        lemma_chan_step(chan_run(events.drop_last()), events.last());
    }
}

/// What the foreground applies never goes backward over any schedule: a
/// later state's applied snapshot is at least as new as an earlier one's.
pub proof fn lemma_applied_monotone(events: Seq<ChanEvent>, more: Seq<ChanEvent>)
    requires
        chan_run(events).applied is Some,
    ensures
        chan_run(events + more).applied is Some,
        chan_run(events + more).applied->0 >= chan_run(events).applied->0,
    decreases more.len(),
{
    lemma_hand_off(events);
    if more.len() == 0 {
        assert(events + more =~= events);
    } else {
        lemma_applied_monotone(events, more.drop_last());
        assert((events + more).drop_last() =~= events + more.drop_last());
        lemma_hand_off(events + more.drop_last());
        lemma_chan_step(chan_run(events + more.drop_last()), more.last());
    }
}

} // verus!
