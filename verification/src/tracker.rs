//! The delivery tracker: the backpressure core that bounds the number
//! of concurrently outstanding deliveries.

use vstd::prelude::*;

verus! {

/// The tracker state after a drain decision over `handles` with the
/// given ceiling: emptied when the ceiling was reached, untouched
/// otherwise.
pub open spec fn spec_after_drain(handles: Seq<u64>, ceiling: int) -> Seq<u64> {
    if handles.len() >= ceiling {
        Seq::empty()
    } else {
        handles
    }
}

/// The handles a drain decision hands out to be awaited, in removal
/// order (most recently registered first): all of them when the ceiling
/// was reached, none otherwise.
pub open spec fn spec_drained(handles: Seq<u64>, ceiling: int) -> Seq<u64> {
    if handles.len() >= ceiling {
        handles.reverse()
    } else {
        Seq::empty()
    }
}

/// Owns the identifiers of the in-flight asynchronous deliveries and
/// decides when every one of them must be awaited before more work is
/// accepted. The admission policy has two states: strictly below the
/// ceiling it accepts new work unconditionally; at the ceiling it hands
/// everything back to be drained before the loop goes on.
pub struct DeliveryTracker {
    handles: Vec<u64>,
}

impl View for DeliveryTracker {
    type V = Seq<u64>;

    closed spec fn view(&self) -> Seq<u64> {
        self.handles@
    }
}

impl DeliveryTracker {
    /// A tracker with no outstanding deliveries.
    pub fn new() -> (t: Self)
        ensures
            t@ == Seq::<u64>::empty(),
    {
        DeliveryTracker { handles: Vec::new() }
    }

    /// The number of outstanding deliveries.
    pub fn len(&self) -> (n: usize)
        ensures
            n == self@.len(),
    {
        self.handles.len()
    }

    /// Whether no delivery is outstanding.
    pub fn is_empty(&self) -> (r: bool)
        ensures
            r == (self@.len() == 0),
    {
        self.handles.len() == 0
    }

    /// Track one more in-flight delivery. No failure mode.
    pub fn register(&mut self, handle: u64)
        ensures
            final(self)@ == old(self)@.push(handle),
    {
        self.handles.push(handle);
    }

    /// The drain decision. With fewer than `ceiling` deliveries
    /// outstanding this is a no-op that hands back no work; otherwise it
    /// hands back every outstanding delivery, most recently registered
    /// first, and leaves the tracker empty. The caller awaits each
    /// handle it is given before submitting more work, so the drain is
    /// synchronous from the loop's point of view.
    pub fn maybe_drain(&mut self, ceiling: usize) -> (drained: Vec<u64>)
        ensures
            final(self)@ == spec_after_drain(old(self)@, ceiling as int),
            drained@ == spec_drained(old(self)@, ceiling as int),
    {
        let mut drained: Vec<u64> = Vec::new();
        if self.handles.len() < ceiling {
            return drained;
        }
        let ghost orig = self.handles@;
        proof {
            assert(self.handles@ =~= orig.subrange(0, self.handles@.len() as int));
        }
        while self.handles.len() > 0
            invariant
                self.handles@ == orig.subrange(0, self.handles@.len() as int),
                drained@.len() + self.handles@.len() == orig.len(),
                forall|t: int| 0 <= t < drained@.len() ==> drained@[t] == orig[orig.len() - 1
                    - t],
            decreases self.handles@.len(),
        {
            let h = self.handles.pop().unwrap();
            drained.push(h);
            proof {
                assert(self.handles@ =~= orig.subrange(0, self.handles@.len() as int));
            }
        }
        proof {
            assert(drained@ =~= orig.reverse());
        }
        drained
    }
}

/// Backpressure law: a drain decision never returns with the ceiling
/// reached. A triggered pass leaves no outstanding delivery at all; an
/// untriggered one leaves strictly fewer than the ceiling.
pub proof fn lemma_ceiling_respected(handles: Seq<u64>, ceiling: int)
    requires
        ceiling > 0,
    ensures
        spec_after_drain(handles, ceiling).len() < ceiling,
        handles.len() >= ceiling ==> spec_after_drain(handles, ceiling).len() == 0,
{
}

/// One produce cycle preserves the bound: starting strictly below the
/// ceiling, registering one delivery and applying the drain decision
/// ends strictly below the ceiling again. When that registration
/// triggers a pass, the tracker held exactly the ceiling at that
/// instant, and the pass hands back exactly that many handles.
pub proof fn lemma_cycle_preserves_bound(handles: Seq<u64>, h: u64, ceiling: int)
    requires
        handles.len() < ceiling,
    ensures
        spec_after_drain(handles.push(h), ceiling).len() < ceiling,
        handles.push(h).len() >= ceiling ==> handles.push(h).len() == ceiling,
        spec_drained(handles.push(h), ceiling).len() == 0 || spec_drained(
            handles.push(h),
            ceiling,
        ).len() == ceiling,
{
}

} // verus!
