//! Reaching writes: which writes can reach a point of a frame, slot by slot.

use vstd::prelude::*;

verus! {

/// What reaches a slot at one point.
#[verifier::ext_equal]
pub struct ReachV {
    /// Some path arrives without any write.
    pub unassigned: bool,
    /// A write with no reportable site arrives: a parameter, a loop variable.
    pub implicit: bool,
    /// The assignment writes that arrive.
    pub assignments: Set<u32>,
}

impl ReachV {
    pub open spec fn of_implicit() -> ReachV {
        ReachV { unassigned: false, implicit: true, assignments: Set::empty() }
    }

    pub open spec fn of_write(index: u32) -> ReachV {
        ReachV { unassigned: false, implicit: false, assignments: Set::empty().insert(index) }
    }

    /// What reaches from either of two paths.
    pub open spec fn union(self, other: ReachV) -> ReachV {
        ReachV {
            unassigned: self.unassigned || other.unassigned,
            implicit: self.implicit || other.implicit,
            assignments: self.assignments.union(other.assignments),
        }
    }

    /// What reaches where another path arrives without a write.
    pub open spec fn or_unassigned(self) -> ReachV {
        ReachV { unassigned: true, ..self }
    }
}

/// The reaching writes of every slot that any write reaches.
pub type FlowV = Map<u32, ReachV>;

/// Two paths that meet: what reaches is the union, slot by slot, and a slot that
/// only one path wrote is unassigned on the other.
pub open spec fn joined(a: FlowV, b: FlowV) -> FlowV {
    Map::new(
        |slot: u32| a.dom().contains(slot) || b.dom().contains(slot),
        |slot: u32|
            if a.dom().contains(slot) && b.dom().contains(slot) {
                a[slot].union(b[slot])
            } else if a.dom().contains(slot) {
                a[slot].or_unassigned()
            } else {
                b[slot].or_unassigned()
            },
    )
}

/// Joining a path with itself changes nothing.
pub proof fn join_is_idempotent(a: FlowV)
    ensures
        joined(a, a) == a,
{
    assert forall|slot: u32| a.dom().contains(slot) implies joined(a, a)[slot] == a[slot] by {
        assert(a[slot].union(a[slot]) =~= a[slot]);
    }
    assert(joined(a, a) =~= a);
}

/// It does not matter which of two paths is named first.
pub proof fn join_is_commutative(a: FlowV, b: FlowV)
    ensures
        joined(a, b) == joined(b, a),
{
    assert forall|slot: u32| joined(a, b).dom().contains(slot) implies joined(a, b)[slot]
        == joined(b, a)[slot] by {
        if a.dom().contains(slot) && b.dom().contains(slot) {
            assert(a[slot].union(b[slot]) =~= b[slot].union(a[slot]));
        }
    }
    assert(joined(a, b) =~= joined(b, a));
}

/// It does not matter in which order three paths meet.
pub proof fn join_is_associative(a: FlowV, b: FlowV, c: FlowV)
    ensures
        joined(joined(a, b), c) == joined(a, joined(b, c)),
{
    let left = joined(joined(a, b), c);
    let right = joined(a, joined(b, c));
    assert forall|slot: u32| left.dom().contains(slot) implies left[slot] == right[slot] by {
        assert(left[slot] =~= right[slot]);
    }
    assert(left =~= right);
}

/// What reaches from a path still reaches where it meets another.
pub proof fn join_keeps_reaches(a: FlowV, b: FlowV, slot: u32)
    requires
        a.dom().contains(slot),
    ensures
        joined(a, b).dom().contains(slot),
        a[slot].unassigned ==> joined(a, b)[slot].unassigned,
        a[slot].implicit ==> joined(a, b)[slot].implicit,
        a[slot].assignments.subset_of(joined(a, b)[slot].assignments),
        !b.dom().contains(slot) ==> joined(a, b)[slot].unassigned,
{
}

/// What reaches a slot at one point.
#[derive(Debug, PartialEq, Eq)]
pub struct Reaches {
    pub unassigned: bool,
    pub implicit: bool,
    pub assignments: Vec<u32>,
}

impl Reaches {
    pub open spec fn view(&self) -> ReachV {
        ReachV {
            unassigned: self.unassigned,
            implicit: self.implicit,
            assignments: self.assignments@.to_set(),
        }
    }

    pub fn implicit() -> (r: Reaches)
        ensures
            r@ == ReachV::of_implicit(),
    {
        let r = Reaches { unassigned: false, implicit: true, assignments: Vec::new() };
        assert(r@ =~= ReachV::of_implicit());
        r
    }

    pub fn write(index: u32) -> (r: Reaches)
        ensures
            r@ == ReachV::of_write(index),
    {
        let mut assignments: Vec<u32> = Vec::new();
        assignments.push(index);
        let r = Reaches { unassigned: false, implicit: false, assignments };
        assert(r.assignments@[0] == index);
        assert(r@ =~= ReachV::of_write(index));
        r
    }

    fn duplicate(&self) -> (r: Reaches)
        ensures
            r@ == self@,
    {
        let mut assignments: Vec<u32> = Vec::new();
        let mut i: usize = 0;
        while i < self.assignments.len()
            invariant
                i <= self.assignments.len(),
                assignments@ =~= self.assignments@.subrange(0, i as int),
            decreases self.assignments.len() - i,
        {
            assignments.push(self.assignments[i]);
            i += 1;
        }
        assert(assignments@ =~= self.assignments@);
        Reaches { unassigned: self.unassigned, implicit: self.implicit, assignments }
    }

    pub fn has_write(&self, index: u32) -> (r: bool)
        ensures
            r == self@.assignments.contains(index),
    {
        let mut i: usize = 0;
        while i < self.assignments.len()
            invariant
                i <= self.assignments.len(),
                forall|j: int| 0 <= j < i ==> self.assignments@[j] != index,
            decreases self.assignments.len() - i,
        {
            if self.assignments[i] == index {
                assert(self.assignments@.contains(index));
                return true;
            }
            i += 1;
        }
        assert(!self.assignments@.contains(index));
        false
    }

    /// Adds what reaches from another path.
    fn absorb(&mut self, other: &Reaches)
        ensures
            final(self)@ == old(self)@.union(other@),
    {
        let mut i: usize = 0;
        while i < other.assignments.len()
            invariant
                i <= other.assignments.len(),
                self.unassigned == old(self).unassigned,
                self.implicit == old(self).implicit,
                self@.assignments =~= old(self)@.assignments.union(
                    other.assignments@.subrange(0, i as int).to_set(),
                ),
            decreases other.assignments.len() - i,
        {
            let index = other.assignments[i];
            let ghost before = self.assignments@;
            let ghost upto = other.assignments@.subrange(0, i as int);
            let ghost next = other.assignments@.subrange(0, i + 1);
            proof {
                assert(next =~= upto.push(index));
                assert forall|x: u32| #[trigger]
                    next.contains(x) == (upto.contains(x) || x == index) by {
                    if upto.contains(x) {
                        let k = choose|k: int| 0 <= k < upto.len() && upto[k] == x;
                        assert(next[k] == x);
                    }
                    assert(next[i as int] == index);
                }
            }
            if !self.has_write(index) {
                self.assignments.push(index);
                assert forall|x: u32| #[trigger]
                    self.assignments@.contains(x) == (before.contains(x) || x == index) by {
                    if before.contains(x) {
                        let k = choose|k: int| 0 <= k < before.len() && before[k] == x;
                        assert(self.assignments@[k] == x);
                    }
                    assert(self.assignments@[before.len() as int] == index);
                }
            } else {
                assert(before.contains(index));
            }
            proof {
                assert forall|x: u32| self@.assignments.contains(x) == old(
                    self,
                )@.assignments.union(next.to_set()).contains(x) by {
                    assert(self@.assignments.contains(x) == self.assignments@.contains(x));
                    assert(before.to_set().contains(x) == before.contains(x));
                    assert(next.to_set().contains(x) == next.contains(x));
                    assert(upto.to_set().contains(x) == upto.contains(x));
                }
            }
            i += 1;
        }
        assert(other.assignments@.subrange(0, other.assignments@.len() as int)
            =~= other.assignments@);
        self.unassigned = self.unassigned || other.unassigned;
        self.implicit = self.implicit || other.implicit;
        assert(self@ =~= old(self)@.union(other@));
    }

    fn within(&self, other: &Reaches) -> (r: bool)
        ensures
            r == self@.assignments.subset_of(other@.assignments),
    {
        let mut i: usize = 0;
        while i < self.assignments.len()
            invariant
                i <= self.assignments.len(),
                forall|j: int| 0 <= j < i ==> other@.assignments.contains(self.assignments@[j]),
            decreases self.assignments.len() - i,
        {
            if !other.has_write(self.assignments[i]) {
                assert(self@.assignments.contains(self.assignments@[i as int]));
                return false;
            }
            i += 1;
        }
        true
    }

    pub fn same(&self, other: &Reaches) -> (r: bool)
        ensures
            r == (self@ == other@),
    {
        let r = self.unassigned == other.unassigned && self.implicit == other.implicit
            && self.within(other) && other.within(self);
        if r {
            assert(self@ =~= other@);
        }
        r
    }
}

/// The reaching writes of a frame, indexed by slot.
#[derive(Debug)]
pub struct FlowState {
    pub slots: Vec<Option<Reaches>>,
}

impl FlowState {
    pub open spec fn view(&self) -> FlowV {
        Map::new(
            |slot: u32| slot < self.slots@.len() && self.slots@[slot as int] is Some,
            |slot: u32| self.slots@[slot as int]->0@,
        )
    }

    pub fn empty() -> (r: FlowState)
        ensures
            r@ == FlowV::empty(),
    {
        let r = FlowState { slots: Vec::new() };
        assert(r@ =~= FlowV::empty());
        r
    }

    pub fn get(&self, slot: u32) -> (r: Option<&Reaches>)
        ensures
            match r {
                Some(reaches) => self@.dom().contains(slot) && reaches@ == self@[slot],
                None => !self@.dom().contains(slot),
            },
    {
        if (slot as usize) < self.slots.len() {
            self.slots[slot as usize].as_ref()
        } else {
            None
        }
    }

    pub fn contains(&self, slot: u32) -> (r: bool)
        ensures
            r == self@.dom().contains(slot),
    {
        self.get(slot).is_some()
    }

    /// Makes the given writes the only ones that reach a slot.
    pub fn insert(&mut self, slot: u32, reaches: Reaches)
        ensures
            final(self)@ == old(self)@.insert(slot, reaches@),
    {
        while self.slots.len() <= slot as usize
            invariant
                self@ == old(self)@,
            decreases slot + 1 - self.slots.len(),
        {
            self.slots.push(None);
            assert(self@ =~= old(self)@);
        }
        self.slots.set(slot as usize, Some(reaches));
        assert(self@ =~= old(self)@.insert(slot, reaches@));
    }

    pub fn duplicate(&self) -> (r: FlowState)
        ensures
            r@ == self@,
    {
        let mut slots: Vec<Option<Reaches>> = Vec::new();
        let mut i: usize = 0;
        while i < self.slots.len()
            invariant
                i <= self.slots.len(),
                slots@.len() == i,
                forall|j: int|
                    #![trigger slots@[j]]
                    0 <= j < i ==> (slots@[j] is Some == self.slots@[j] is Some) && (
                    slots@[j] is Some ==> slots@[j]->0@ == self.slots@[j]->0@),
            decreases self.slots.len() - i,
        {
            let copy = match &self.slots[i] {
                Some(reaches) => Some(reaches.duplicate()),
                None => None,
            };
            slots.push(copy);
            i += 1;
        }
        let r = FlowState { slots };
        assert(r@ =~= self@);
        r
    }

    pub fn same(&self, other: &FlowState) -> (r: bool)
        ensures
            r == (self@ == other@),
    {
        let count: usize = if self.slots.len() <= other.slots.len() {
            other.slots.len()
        } else {
            self.slots.len()
        };
        let mut i: usize = 0;
        while i < count && (i as u64) < 0x1_0000_0000u64
            invariant
                i <= count,
                i <= 0x1_0000_0000,
                self.slots@.len() <= count,
                other.slots@.len() <= count,
                forall|slot: u32|
                    #![trigger self@.dom().contains(slot)]
                    slot < i ==> (self@.dom().contains(slot) == other@.dom().contains(slot)) && (
                    self@.dom().contains(slot) ==> self@[slot] == other@[slot]),
            decreases count - i,
        {
            let slot = i as u32;
            assert(slot == i);
            match (self.get(slot), other.get(slot)) {
                (Some(a), Some(b)) => {
                    if !a.same(b) {
                        assert(self@[slot] != other@[slot]);
                        return false;
                    }
                },
                (None, None) => {},
                _ => {
                    assert(self@.dom().contains(slot) != other@.dom().contains(slot));
                    return false;
                },
            }
            i += 1;
        }
        assert(self@ =~= other@);
        true
    }
}

/// Joins two control-flow paths, slot by slot.
pub fn join_flow(into: &mut FlowState, other: &FlowState)
    ensures
        final(into)@ == joined(old(into)@, other@),
{
    let ghost start = into@;
    while into.slots.len() < other.slots.len()
        invariant
            into@ == start,
        decreases other.slots.len() - into.slots.len(),
    {
        into.slots.push(None);
        assert(into@ =~= start);
    }
    let count = into.slots.len();
    let mut i: usize = 0;
    while i < count
        invariant
            i <= count,
            count == into.slots@.len(),
            other.slots@.len() <= count,
            forall|slot: u32|
                #![trigger into@.dom().contains(slot)]
                slot < i ==> (into@.dom().contains(slot) == joined(start, other@).dom().contains(
                    slot,
                )) && (into@.dom().contains(slot) ==> into@[slot] == joined(start, other@)[slot]),
            forall|slot: u32|
                #![trigger into@.dom().contains(slot)]
                slot >= i ==> (into@.dom().contains(slot) == start.dom().contains(slot)) && (
                into@.dom().contains(slot) ==> into@[slot] == start[slot]),
        decreases count - i,
    {
        let ghost before = into@;
        let arriving: Option<Reaches> = if i < other.slots.len() {
            match &other.slots[i] {
                Some(reaches) => Some(reaches.duplicate()),
                None => None,
            }
        } else {
            None
        };
        let present = into.slots[i].take();
        let result = match (present, arriving) {
            (Some(mut own), Some(other)) => {
                own.absorb(&other);
                Some(own)
            },
            (Some(own), None) => Some(
                Reaches {
                    unassigned: true,
                    implicit: own.implicit,
                    assignments: own.assignments,
                },
            ),
            (None, Some(other)) => Some(
                Reaches {
                    unassigned: true,
                    implicit: other.implicit,
                    assignments: other.assignments,
                },
            ),
            (None, None) => None,
        };
        into.slots.set(i, result);
        proof {
            assert forall|slot: u32|
                #![trigger into@.dom().contains(slot)]
                slot != i implies (into@.dom().contains(slot) == before.dom().contains(slot)) && (
            into@.dom().contains(slot) ==> into@[slot] == before[slot]) by {}
            if i <= u32::MAX {
                let slot = i as u32;
                assert(before.dom().contains(slot) == start.dom().contains(slot));
                assert(other@.dom().contains(slot) == (i < other.slots@.len()
                    && other.slots@[i as int] is Some));
                assert(into@.dom().contains(slot) == joined(start, other@).dom().contains(slot));
                if into@.dom().contains(slot) {
                    assert(into@[slot] =~= joined(start, other@)[slot]);
                }
            }
        }
        i += 1;
    }
    assert(into@ =~= joined(start, other@));
}

} // verus!
