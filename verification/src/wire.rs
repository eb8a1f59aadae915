//! Per-wire state: terminals, kind, curve segment count, and cut set.

use vstd::prelude::*;

use crate::cutset::CutSet;

verus! {

/// What a wire carries. A wire with a generator terminal is a power line;
/// wires between servers carry communication.
#[derive(Clone, Copy, PartialEq, Eq, Structural, Debug)]
pub enum WireKind {
    Power,
    Communication,
}

/// A discrete edit to a wire's cut set.
#[derive(Clone, Copy, PartialEq, Eq, Structural, Debug)]
pub enum WireOperation {
    Cut,
    Join,
}

/// A queued cut/join request against one wire, drained once per tick.
#[derive(Clone, Copy, PartialEq, Eq, Structural, Debug)]
pub struct UpdateWire {
    pub operation: WireOperation,
    pub wire: usize,
    pub pos: usize,
}

/// A wire of the network: its two terminal node ids, what it carries, how
/// many samples its curve is tessellated into, and which are severed.
pub struct Wire {
    pub terminals: (usize, usize),
    pub kind: WireKind,
    pub segments: usize,
    pub cuts: CutSet,
}

impl Wire {
    /// Terminals are distinct and the curve has at least one segment.
    pub open spec fn wf(self) -> bool {
        &&& self.terminals.0 != self.terminals.1
        &&& self.segments >= 1
        &&& self.cuts.wf()
    }
}

/// What one cut/join request does to a cut set.
pub open spec fn apply_update_spec(cuts: Set<int>, op: WireOperation, pos: int) -> Set<int> {
    match op {
        WireOperation::Cut => cuts.insert(pos),
        WireOperation::Join => cuts.remove(pos),
    }
}

/// The cut set of wire `w` after draining `events` in arrival order,
/// starting from `init`. Requests against other wires do not touch it.
pub open spec fn cuts_after(init: Set<int>, events: Seq<UpdateWire>, w: int) -> Set<int>
    decreases events.len(),
{
    if events.len() == 0 {
        init
    } else {
        let first = events.first();
        let next = if first.wire == w {
            apply_update_spec(init, first.operation, first.pos as int)
        } else {
            init
        };
        cuts_after(next, events.drop_first(), w)
    }
}

/// Draining one more event applies it after all the earlier ones.
pub proof fn lemma_cuts_after_push(init: Set<int>, events: Seq<UpdateWire>, e: UpdateWire, w: int)
    ensures
        cuts_after(init, events.push(e), w) == (if e.wire == w {
            apply_update_spec(cuts_after(init, events, w), e.operation, e.pos as int)
        } else {
            cuts_after(init, events, w)
        }),
    decreases events.len(),
{
    if events.len() == 0 {
        assert(events.push(e).first() == e);
        assert(events.push(e).drop_first() =~= Seq::<UpdateWire>::empty());
        let start = if e.wire == w {
            apply_update_spec(init, e.operation, e.pos as int)
        } else {
            init
        };
        assert(cuts_after(init, events.push(e), w) == cuts_after(
            start,
            events.push(e).drop_first(),
            w,
        ));
        assert(cuts_after(start, events.push(e).drop_first(), w) == start);
    } else {
        assert(events.push(e).first() == events.first());
        assert(events.push(e).drop_first() =~= events.drop_first().push(e));
        let next = if events.first().wire == w {
            apply_update_spec(init, events.first().operation, events.first().pos as int)
        } else {
            init
        };
        assert(cuts_after(init, events.push(e), w) == cuts_after(
            next,
            events.drop_first().push(e),
            w,
        ));
        assert(cuts_after(init, events, w) == cuts_after(next, events.drop_first(), w));
        lemma_cuts_after_push(next, events.drop_first(), e, w);
    }
}

} // verus!
