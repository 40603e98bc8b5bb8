use vstd::prelude::*;

use crate::io::Line;

verus! {

/// The bounded mailbox of capacity one that carries the sender's
/// current in-progress line to the receiver.  A stored `None` means
/// "no line in progress"; an empty slot means nothing was published
/// since the last take.  A publisher that finds the slot full drains
/// it first, so the slot always holds the most recent state.
pub struct LineChannel {
    slot: Option<Option<Line>>,
}

/// The slot contents after a sequence of publishes: the last published
/// value, or the starting contents when nothing was published.
pub open spec fn spec_slot_after(init: Option<Option<Line>>, writes: Seq<Option<Line>>) -> Option<
    Option<Line>,
>
    decreases writes.len(),
{
    if writes.len() == 0 {
        init
    } else {
        spec_slot_after(Some(writes[0]), writes.drop_first())
    }
}

impl LineChannel {
    /// The current slot contents.
    pub closed spec fn slot(&self) -> Option<Option<Line>> {
        self.slot
    }

    /// An empty mailbox.
    pub fn new() -> (r: LineChannel)
        ensures
            r.slot() is None,
    {
        LineChannel { slot: None }
    }

    /// Whether nothing has been published since the last take.
    pub fn is_empty(&self) -> (r: bool)
        ensures
            r == (self.slot() is None),
    {
        self.slot.is_none()
    }

    /// Publishes `value`, draining any value already present: the
    /// mailbox afterwards holds exactly `value`.
    pub fn publish(&mut self, value: Option<Line>)
        ensures
            final(self).slot() == Some(value),
    {
        self.slot = Some(value);
    }

    /// Takes the current contents, leaving the mailbox empty.
    pub fn take(&mut self) -> (r: Option<Option<Line>>)
        ensures
            r == old(self).slot(),
            final(self).slot() is None,
    {
        let mut out: Option<Option<Line>> = None;
        core::mem::swap(&mut self.slot, &mut out);
        out
    }
}

/// Latest wins: after any non-empty sequence of publishes without an
/// intervening take, the mailbox holds exactly the last published
/// value — earlier values are gone, and the slot never holds more than
/// that one value.
pub proof fn lemma_latest_wins(init: Option<Option<Line>>, writes: Seq<Option<Line>>)
    requires
        writes.len() > 0,
    ensures
        spec_slot_after(init, writes) == Some(writes.last()),
    decreases writes.len(),
{
    if writes.len() == 1 {
    } else {
        lemma_latest_wins(Some(writes[0]), writes.drop_first());
    }
}

} // verus!
