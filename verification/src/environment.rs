//! The slot environment of a check: a map from slots to what they hold, with a
//! log that undoes every write.

use rustc_hash::FxHashMap;
use vstd::prelude::*;

use crate::fx;
use crate::types::{Ty, TyV};

verus! {

/// What a slot holds.
#[derive(Debug)]
pub enum EnvEntry {
    /// A type.
    Mono(Ty),
    /// A generalized scheme, by its place among the schemes of the check.
    Scheme(u32),
    /// A formal without a default where `missing(name)` held: a read fails. It
    /// keeps the type of the supplied state.
    MissingFormal(Ty),
}

/// The model of a slot's entry.
pub enum SlotV {
    Mono(TyV),
    Scheme(u32),
    MissingFormal(TyV),
}

impl EnvEntry {
    pub open spec fn view(&self) -> SlotV {
        match self {
            EnvEntry::Mono(ty) => SlotV::Mono(ty@),
            EnvEntry::Scheme(index) => SlotV::Scheme(*index),
            EnvEntry::MissingFormal(ty) => SlotV::MissingFormal(ty@),
        }
    }

    pub fn same(&self, other: &EnvEntry) -> (r: bool)
        ensures
            r == (self@ == other@),
    {
        match (self, other) {
            (EnvEntry::Mono(a), EnvEntry::Mono(b)) => a.same(b),
            (EnvEntry::Scheme(a), EnvEntry::Scheme(b)) => *a == *b,
            (EnvEntry::MissingFormal(a), EnvEntry::MissingFormal(b)) => a.same(b),
            _ => false,
        }
    }
}

impl Clone for EnvEntry {
    fn clone(&self) -> (r: Self)
        ensures
            r == *self,
    {
        match self {
            EnvEntry::Mono(ty) => EnvEntry::Mono(ty.clone()),
            EnvEntry::Scheme(index) => EnvEntry::Scheme(*index),
            EnvEntry::MissingFormal(ty) => EnvEntry::MissingFormal(ty.clone()),
        }
    }
}

pub open spec fn opt_slot(entry: Option<EnvEntry>) -> Option<SlotV> {
    match entry {
        Some(entry) => Some(entry@),
        None => None,
    }
}

/// A list of written slots and what they hold.
pub type WritesV = Seq<(u32, Option<SlotV>)>;

pub open spec fn writes_view(writes: Seq<(u32, Option<EnvEntry>)>) -> WritesV {
    Seq::new(writes.len(), |i: int| (writes[i].0, opt_slot(writes[i].1)))
}

/// The model of an environment.
#[verifier::ext_equal]
pub struct EnvV {
    pub slots: Map<u32, SlotV>,
    /// What each write replaced, latest last.
    pub undo: WritesV,
}

impl EnvV {
    pub open spec fn empty() -> EnvV {
        EnvV { slots: Map::empty(), undo: Seq::empty() }
    }

    pub open spec fn get(self, slot: u32) -> Option<SlotV> {
        if self.slots.dom().contains(slot) {
            Some(self.slots[slot])
        } else {
            None
        }
    }

    pub open spec fn set(self, slot: u32, entry: SlotV) -> EnvV {
        EnvV {
            slots: self.slots.insert(slot, entry),
            undo: self.undo.push((slot, self.get(slot))),
        }
    }

    pub open spec fn mark(self) -> nat {
        self.undo.len()
    }

    /// The environment with every write past a mark undone, latest first.
    pub open spec fn rolled_back(self, mark: nat) -> EnvV
        decreases self.undo.len(),
    {
        if self.undo.len() <= mark {
            self
        } else {
            let (slot, previous) = self.undo.last();
            EnvV {
                slots: match previous {
                    Some(entry) => self.slots.insert(slot, entry),
                    None => self.slots.remove(slot),
                },
                undo: self.undo.drop_last(),
            }.rolled_back(mark)
        }
    }

    /// The slots written since a mark up to a place in the log, each once in
    /// order of its first write, with what they hold now.
    pub open spec fn writes_between(self, mark: nat, upto: nat) -> WritesV
        decreases upto,
    {
        if upto <= mark || upto > self.undo.len() {
            Seq::empty()
        } else {
            let before = self.writes_between(mark, (upto - 1) as nat);
            let slot = self.undo[upto - 1].0;
            if lists_slot(before, slot) {
                before
            } else {
                before.push((slot, self.get(slot)))
            }
        }
    }

    pub open spec fn writes_since(self, mark: nat) -> WritesV {
        self.writes_between(mark, self.undo.len())
    }

    /// Whether every write since an earlier state is on the log.
    pub open spec fn grown_from(self, before: EnvV) -> bool {
        before.undo.len() <= self.undo.len() && self.rolled_back(before.mark()) == before
    }
}

pub open spec fn lists_slot(writes: WritesV, slot: u32) -> bool {
    exists|i: int| 0 <= i < writes.len() && (#[trigger] writes[i]).0 == slot
}

/// Undoing a write restores exactly the state before it.
pub proof fn undoing_a_write_restores(env: EnvV, slot: u32, entry: SlotV)
    ensures
        env.set(slot, entry).rolled_back(env.mark()) == env,
{
    let next = env.set(slot, entry);
    assert(next.undo.drop_last() =~= env.undo);
    assert(match env.get(slot) {
        Some(previous) => next.slots.insert(slot, previous) =~= env.slots,
        None => next.slots.remove(slot) =~= env.slots,
    });
    assert(env.rolled_back(env.mark()) == env);
}

proof fn rolled_back_in_steps(env: EnvV, mid: nat, to: nat)
    requires
        to <= mid,
    ensures
        env.rolled_back(mid).rolled_back(to) == env.rolled_back(to),
    decreases env.undo.len(),
{
    if env.undo.len() > mid {
        let (slot, previous) = env.undo.last();
        let next = EnvV {
            slots: match previous {
                Some(entry) => env.slots.insert(slot, entry),
                None => env.slots.remove(slot),
            },
            undo: env.undo.drop_last(),
        };
        rolled_back_in_steps(next, mid, to);
    }
}

/// However many writes a branch makes, rolling back to its mark leaves no trace
/// of them: the states that roll back to a given one are closed under writes.
pub proof fn rollback_leaves_no_trace(before: EnvV, after: EnvV, slot: u32, entry: SlotV)
    requires
        after.grown_from(before),
    ensures
        after.set(slot, entry).grown_from(before),
        after.set(slot, entry).rolled_back(before.mark()) == before,
{
    undoing_a_write_restores(after, slot, entry);
    rolled_back_in_steps(after.set(slot, entry), after.mark(), before.mark());
}

/// The slot environment: an undo-logged map from slots to entries.
#[derive(Debug)]
pub struct Environment {
    entries: FxHashMap<u32, EnvEntry>,
    undo: Vec<(u32, Option<EnvEntry>)>,
}

spec fn slots_view(entries: Map<u32, EnvEntry>) -> Map<u32, SlotV> {
    Map::new(|slot: u32| entries.dom().contains(slot), |slot: u32| entries[slot]@)
}

impl Environment {
    pub closed spec fn view(&self) -> EnvV {
        EnvV { slots: slots_view(self.entries@), undo: writes_view(self.undo@) }
    }

    pub fn new() -> (r: Environment)
        ensures
            r@ == EnvV::empty(),
    {
        let r = Environment { entries: fx::fx_map(), undo: Vec::new() };
        assert(r@ =~= EnvV::empty());
        r
    }

    pub fn get(&self, slot: u32) -> (r: Option<EnvEntry>)
        ensures
            opt_slot(r) == self@.get(slot),
    {
        match fx::fx_get(&self.entries, slot) {
            Some(entry) => Some(entry.clone()),
            None => None,
        }
    }

    pub fn set(&mut self, slot: u32, entry: EnvEntry)
        ensures
            final(self)@ == old(self)@.set(slot, entry@),
    {
        let previous = fx::fx_insert(&mut self.entries, slot, entry);
        self.undo.push((slot, previous));
        assert(self@.slots =~= old(self)@.slots.insert(slot, entry@));
        assert(self@.undo =~= old(self)@.set(slot, entry@).undo);
    }

    /// A mark to roll back to.
    pub fn mark(&self) -> (r: usize)
        ensures
            r == self@.mark(),
    {
        self.undo.len()
    }

    pub fn rollback(&mut self, mark: usize)
        ensures
            final(self)@ == old(self)@.rolled_back(mark as nat),
    {
        while self.undo.len() > mark
            invariant
                self@.rolled_back(mark as nat) == old(self)@.rolled_back(mark as nat),
            decreases self.undo.len(),
        {
            let ghost before = self@;
            let last = self.undo.pop();
            if let Some((slot, previous)) = last {
                assert(before.undo.last() == (slot, opt_slot(previous)));
                match previous {
                    Some(entry) => {
                        fx::fx_insert(&mut self.entries, slot, entry);
                        assert(self@.slots =~= before.slots.insert(slot, entry@));
                    },
                    None => {
                        fx::fx_remove(&mut self.entries, slot);
                        assert(self@.slots =~= before.slots.remove(slot));
                    },
                }
                assert(self@.undo =~= before.undo.drop_last());
            }
        }
    }

    /// The slots written since a mark, each once, with what they hold now.
    pub fn writes_since(&self, mark: usize) -> (r: Vec<(u32, Option<EnvEntry>)>)
        ensures
            writes_view(r@) == self@.writes_since(mark as nat),
    {
        let mut writes: Vec<(u32, Option<EnvEntry>)> = Vec::new();
        assert(writes_view(writes@) =~= Seq::empty());
        if mark >= self.undo.len() {
            return writes;
        }
        let mut i: usize = mark;
        while i < self.undo.len()
            invariant
                mark <= i <= self.undo.len(),
                writes_view(writes@) == self@.writes_between(mark as nat, i as nat),
            decreases self.undo.len() - i,
        {
            let slot = self.undo[i].0;
            let ghost before = writes_view(writes@);
            assert(self@.undo[i as int].0 == slot);
            if !slot_is_listed(&writes, slot) {
                writes.push((slot, self.get(slot)));
                assert(writes_view(writes@) =~= before.push((slot, self@.get(slot))));
            }
            i += 1;
        }
        writes
    }
}

fn slot_is_listed(writes: &Vec<(u32, Option<EnvEntry>)>, slot: u32) -> (r: bool)
    ensures
        r == lists_slot(writes_view(writes@), slot),
{
    let mut i: usize = 0;
    while i < writes.len()
        invariant
            i <= writes.len(),
            forall|j: int| 0 <= j < i ==> #[trigger] writes@[j].0 != slot,
        decreases writes.len() - i,
    {
        if writes[i].0 == slot {
            assert(writes_view(writes@)[i as int].0 == slot);
            return true;
        }
        i += 1;
    }
    false
}

} // verus!
