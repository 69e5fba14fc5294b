//! Naming: the variable model. A variable is a mutable slot, and reads resolve
//! against the writes that reach them.
//!
//! Every `<-` or `=` of a name in a frame resolves to one slot; `<<-` walks the
//! lexical chain to the nearest enclosing slot. A read resolves to a slot only
//! where a write can reach it, and is flagged where a path without a write
//! reaches it too. A dead store is an assignment whose write no read reaches.

use std::collections::{BTreeMap, BTreeSet};

use rustc_hash::FxHashMap;
use vstd::prelude::*;

use crate::flow;
use crate::flow::{join_flow, FlowState, FlowV, Reaches};
use crate::fx;
use crate::hir;
use crate::hir::{
    Argument, AssignSpelling, BinaryOperator, ExprId, ExpressionKind, LiteralKind, Module,
    Parameter, UnaryOperator,
};
use crate::order;
use crate::syntax::TextRange;
use crate::text::{chars_of, same_text};
use crate::types;
use crate::walk;
use crate::walk::{
    BindingId, BindingKind, BindingV, InvalidAssignmentTarget, NamespaceReadV, NamingV, ScopeKind,
    ScopeV, UnusedV, WalkV, WriteV,
};

verus! {

broadcast use crate::types::texts_push;

/// One slot, with the site of its first write.
#[derive(Debug, PartialEq, Eq)]
pub struct BindingInfo {
    pub id: BindingId,
    pub name: String,
    pub range: TextRange,
    pub kind: BindingKind,
}

impl BindingInfo {
    pub open spec fn view(&self) -> BindingV {
        BindingV { name: self.name@, range: self.range, kind: self.kind }
    }
}

/// A dead store: an assignment whose written value no read reaches.
#[derive(Debug, PartialEq, Eq)]
pub struct UnusedAssignment {
    pub name: String,
    pub range: TextRange,
}

impl UnusedAssignment {
    pub open spec fn view(&self) -> UnusedV {
        UnusedV { name: self.name@, range: self.range }
    }
}

/// A qualified `pkg::name` or `pkg:::name` read.
#[derive(Debug, PartialEq, Eq)]
pub struct NamespaceRead {
    pub internal: bool,
    pub package: String,
    pub name: Option<String>,
}

impl NamespaceRead {
    pub open spec fn view(&self) -> NamespaceReadV {
        NamespaceReadV {
            internal: self.internal,
            package: self.package@,
            name: types::opt_text(self.name),
        }
    }
}

/// The naming facts of one item. Expressions and slots stand as the numbers of
/// their ids; sets of names list each name once.
#[derive(Debug)]
pub struct ItemNaming {
    /// Every slot, at the place its id gives.
    pub bindings: Vec<BindingInfo>,
    /// Reads and assignment targets resolved to their slot.
    pub resolutions: BTreeMap<u32, BindingId>,
    /// Reads that a path without a write can reach.
    pub maybe_undefined: BTreeSet<u32>,
    /// Reads no lexical slot resolves.
    pub non_locals: BTreeMap<u32, String>,
    /// Those of `non_locals` read from inside a nested function.
    pub deferred_non_locals: BTreeSet<u32>,
    /// Reads no lexical slot resolves, in a context where that is no finding.
    pub quiet_reads: BTreeMap<u32, String>,
    /// Those of `quiet_reads` read from inside a nested function.
    pub deferred_quiet_reads: BTreeSet<u32>,
    /// Names read as `%...%` operators.
    pub quiet_operator_reads: Vec<String>,
    /// Dead stores.
    pub unused_assignments: Vec<UnusedAssignment>,
    /// Parameters no read resolves to, `...` left out.
    pub unused_parameters: Vec<UnusedAssignment>,
    /// Names of the item's own top-level slots that some read resolved to.
    pub used_top_level_names: Vec<String>,
    /// Slots read or assigned from inside a function nested below their frame.
    pub captured_slots: BTreeSet<u32>,
    /// `[` expressions recognized as data.table syntax.
    pub masked_subsets: BTreeSet<u32>,
    /// Qualified reads outside quiet contexts.
    pub namespace_reads: BTreeMap<u32, NamespaceRead>,
    /// Names written by `<<-` with no enclosing slot.
    pub super_globals: Vec<String>,
    /// Assignment targets that are refused at run time.
    pub invalid_assignment_targets: Vec<InvalidAssignmentTarget>,
}

pub open spec fn bindings_view(bindings: Seq<BindingInfo>) -> Seq<BindingV> {
    Seq::new(bindings.len(), |i: int| bindings[i]@)
}

pub open spec fn unused_view(unused: Seq<UnusedAssignment>) -> Seq<UnusedV> {
    Seq::new(unused.len(), |i: int| unused[i]@)
}

pub open spec fn text_values(map: Map<u32, String>) -> Map<u32, Seq<char>> {
    Map::new(|key: u32| map.dom().contains(key), |key: u32| map[key]@)
}

pub open spec fn read_values(map: Map<u32, NamespaceRead>) -> Map<u32, NamespaceReadV> {
    Map::new(|key: u32| map.dom().contains(key), |key: u32| map[key]@)
}

pub open spec fn text_set(list: Seq<String>) -> Set<Seq<char>> {
    types::texts(list).to_set()
}

impl ItemNaming {
    /// Whether every slot's id is its place.
    pub open spec fn is_numbered(&self) -> bool {
        forall|i: int|
            0 <= i < self.bindings@.len() ==> (#[trigger] self.bindings@[i]).id.0 == i as u32
    }

    /// Whether the sets of names are listed in order, without repetition.
    pub open spec fn is_ordered(&self) -> bool {
        &&& order::ascending(types::texts(self.quiet_operator_reads@))
        &&& order::ascending(types::texts(self.used_top_level_names@))
        &&& order::ascending(types::texts(self.super_globals@))
    }

    pub open spec fn view(&self) -> NamingV {
        NamingV {
            bindings: bindings_view(self.bindings@),
            resolutions: self.resolutions@,
            maybe_undefined: self.maybe_undefined@,
            non_locals: text_values(self.non_locals@),
            deferred_non_locals: self.deferred_non_locals@,
            quiet_reads: text_values(self.quiet_reads@),
            deferred_quiet_reads: self.deferred_quiet_reads@,
            quiet_operator_reads: text_set(self.quiet_operator_reads@),
            unused_assignments: unused_view(self.unused_assignments@),
            unused_parameters: unused_view(self.unused_parameters@),
            used_top_level_names: text_set(self.used_top_level_names@),
            captured_slots: self.captured_slots@,
            masked_subsets: self.masked_subsets@,
            namespace_reads: read_values(self.namespace_reads@),
            super_globals: text_set(self.super_globals@),
            invalid_targets: self.invalid_assignment_targets@,
        }
    }

    fn empty() -> (r: ItemNaming)
        ensures
            r@ == walk::initial().facts(),
            r.is_ordered(),
            r.is_numbered(),
    {
        let r = ItemNaming {
            bindings: Vec::new(),
            resolutions: BTreeMap::new(),
            maybe_undefined: BTreeSet::new(),
            non_locals: BTreeMap::new(),
            deferred_non_locals: BTreeSet::new(),
            quiet_reads: BTreeMap::new(),
            deferred_quiet_reads: BTreeSet::new(),
            quiet_operator_reads: Vec::new(),
            unused_assignments: Vec::new(),
            unused_parameters: Vec::new(),
            used_top_level_names: Vec::new(),
            captured_slots: BTreeSet::new(),
            masked_subsets: BTreeSet::new(),
            namespace_reads: BTreeMap::new(),
            super_globals: Vec::new(),
            invalid_assignment_targets: Vec::new(),
        };
        assert(r@ =~= walk::initial().facts());
        r
    }
}

/// Whether a name is in a list.
fn lists_name(list: &Vec<String>, name: &String) -> (r: bool)
    ensures
        r == types::texts(list@).contains(name@),
{
    let mut i: usize = 0;
    while i < list.len()
        invariant
            i <= list.len(),
            forall|j: int| 0 <= j < i ==> list@[j]@ != name@,
        decreases list.len() - i,
    {
        if same_text(list[i].as_str(), name.as_str()) {
            assert(types::texts(list@)[i as int] == name@);
            return true;
        }
        i += 1;
    }
    false
}

struct Scope {
    /// One identity per defining expression.
    id: u32,
    kind: ScopeKind,
    /// The slot of each name: the last one given.
    slots: Vec<(String, BindingId)>,
}

spec fn slots_view(slots: Seq<(String, BindingId)>) -> Seq<(Seq<char>, BindingId)> {
    Seq::new(slots.len(), |i: int| (slots[i].0@, slots[i].1))
}

impl Scope {
    spec fn view(&self) -> ScopeV {
        ScopeV { id: self.id, kind: self.kind, slots: slots_view(self.slots@) }
    }

    fn new(kind: ScopeKind, id: u32) -> (r: Scope)
        ensures
            r@ == (ScopeV { id, kind, slots: Seq::empty() }),
    {
        let r = Scope { id, kind, slots: Vec::new() };
        assert(r@.slots =~= Seq::empty());
        r
    }

    fn slot(&self, name: &str) -> (r: Option<BindingId>)
        ensures
            r == walk::slot_in(self@.slots, name@),
    {
        let mut i: usize = self.slots.len();
        assert(self@.slots.subrange(0, i as int) =~= self@.slots);
        while i > 0
            invariant
                i <= self.slots.len(),
                walk::slot_in(self@.slots.subrange(0, i as int), name@) == walk::slot_in(
                    self@.slots,
                    name@,
                ),
            decreases i,
        {
            assert(self@.slots.subrange(0, i as int).drop_last() =~= self@.slots.subrange(
                0,
                i - 1,
            ));
            if same_text(self.slots[i - 1].0.as_str(), name) {
                return Some(self.slots[i - 1].1);
            }
            i -= 1;
        }
        None
    }
}

struct AssignmentWrite {
    name: String,
    range: TextRange,
    /// The written slot's owning frame.
    scope: u32,
    used: bool,
    reportable: bool,
}

impl AssignmentWrite {
    spec fn view(&self) -> WriteV {
        WriteV {
            name: self.name@,
            range: self.range,
            scope: self.scope,
            used: self.used,
            reportable: self.reportable,
        }
    }
}

spec fn scopes_view(scopes: Seq<Scope>) -> Seq<ScopeV> {
    Seq::new(scopes.len(), |i: int| scopes[i]@)
}

spec fn writes_view(writes: Seq<AssignmentWrite>) -> Seq<WriteV> {
    Seq::new(writes.len(), |i: int| writes[i]@)
}

spec fn flows_view(flows: Seq<FlowState>) -> Seq<FlowV> {
    Seq::new(flows.len(), |i: int| flows[i]@)
}

/// Whether a map of sites has the number of the binding at a site.
spec fn site_agrees(
    map: FxHashMap<(u32, u32, String), u32>,
    bindings: Seq<BindingInfo>,
    site: (u32, u32, Seq<char>),
) -> bool {
    let range = TextRange { start: site.0, end: site.1 };
    match walk::binding_at(bindings_view(bindings), site.2, range, 0) {
        Some(i) => fx::sites(map).dom().contains(site) && fx::sites(map)[site] == i as u32,
        None => !fx::sites(map).dom().contains(site),
    }
}

/// Whether a map of sites has the numbers of the bindings at their sites.
spec fn sites_agree(
    map: FxHashMap<(u32, u32, String), u32>,
    bindings: Seq<BindingInfo>,
) -> bool {
    forall|site: (u32, u32, Seq<char>)| #[trigger] site_agrees(map, bindings, site)
}

proof fn binding_pushed(
    bindings: Seq<BindingV>,
    one: BindingV,
    name: Seq<char>,
    range: TextRange,
    from: int,
)
    requires
        0 <= from <= bindings.len(),
    ensures
        walk::binding_at(bindings.push(one), name, range, from) == match walk::binding_at(
            bindings,
            name,
            range,
            from,
        ) {
            Some(i) => Some(i),
            None => if one.name == name && one.range == range {
                Some(bindings.len() as int)
            } else {
                None
            },
        },
    decreases bindings.len() - from,
{
    if from < bindings.len() {
        assert(bindings.push(one)[from] == bindings[from]);
        binding_pushed(bindings, one, name, range, from + 1);
    } else {
        assert(walk::binding_at(bindings.push(one), name, range, from + 1) is None);
    }
}

proof fn one_more_site(
    map: FxHashMap<(u32, u32, String), u32>,
    bindings: Seq<BindingInfo>,
    next: FxHashMap<(u32, u32, String), u32>,
    more: Seq<BindingInfo>,
)
    requires
        sites_agree(map, bindings),
        more.len() == bindings.len() + 1,
        bindings_view(more) == bindings_view(bindings).push(more.last()@),
        fx::sites(next) == fx::sites(map).insert(
            (more.last().range.start, more.last().range.end, more.last().name@),
            bindings.len() as u32,
        ),
        !fx::sites(map).dom().contains(
            (more.last().range.start, more.last().range.end, more.last().name@),
        ),
    ensures
        sites_agree(next, more),
{
    assert forall|site: (u32, u32, Seq<char>)| #[trigger] site_agrees(next, more, site) by {
        assert(site_agrees(map, bindings, site));
        let range = TextRange { start: site.0, end: site.1 };
        binding_pushed(bindings_view(bindings), more.last()@, site.2, range, 0);
    }
}

struct Context<'a> {
    module: &'a Module,
    masked_verbs: &'a FxHashMap<String, Vec<String>>,
    bindings_by_site: FxHashMap<(u32, u32, String), u32>,
    scopes: Vec<Scope>,
    scope_ids: FxHashMap<u32, u32>,
    flow: FlowState,
    writes: Vec<AssignmentWrite>,
    write_by_expression: FxHashMap<u32, u32>,
    read_parameter_slots: BTreeSet<u32>,
    emit: bool,
    loop_exits: Vec<FlowState>,
    quiet: bool,
    deferred: bool,
    quoted: bool,
    naming: ItemNaming,
}

/// The walk's state, part by part.
spec fn state_of(
    naming: NamingV,
    scopes: Seq<ScopeV>,
    scope_ids: Map<u32, u32>,
    flow: FlowV,
    loop_exits: Seq<FlowV>,
    writes: Seq<WriteV>,
    write_sites: Map<u32, u32>,
    read_parameters: Set<u32>,
    modes: (bool, bool, bool, bool),
) -> WalkV {
    WalkV {
        bindings: naming.bindings,
        resolutions: naming.resolutions,
        maybe_undefined: naming.maybe_undefined,
        non_locals: naming.non_locals,
        deferred_non_locals: naming.deferred_non_locals,
        quiet_reads: naming.quiet_reads,
        deferred_quiet_reads: naming.deferred_quiet_reads,
        quiet_operator_reads: naming.quiet_operator_reads,
        used_top_level_names: naming.used_top_level_names,
        captured_slots: naming.captured_slots,
        masked_subsets: naming.masked_subsets,
        namespace_reads: naming.namespace_reads,
        super_globals: naming.super_globals,
        invalid_targets: naming.invalid_targets,
        scopes,
        scope_ids,
        flow,
        loop_exits,
        writes,
        write_sites,
        read_parameters,
        emit: modes.0,
        quiet: modes.1,
        deferred: modes.2,
        quoted: modes.3,
    }
}

impl<'a> Context<'a> {
    spec fn view(&self) -> WalkV {
        state_of(
            self.naming@,
            scopes_view(self.scopes@),
            self.scope_ids@,
            self.flow@,
            flows_view(self.loop_exits@),
            writes_view(self.writes@),
            self.write_by_expression@,
            self.read_parameter_slots@,
            (self.emit, self.quiet, self.deferred, self.quoted),
        )
    }

    spec fn verbs(&self) -> walk::VerbsV {
        fx::listed_texts(*self.masked_verbs)
    }

    spec fn wf(&self) -> bool {
        &&& self.module.wf()
        &&& self.scopes@.len() > 0
        &&& sites_agree(self.bindings_by_site, self.naming.bindings@)
    }

    /// Whether only the walk's state differs.
    spec fn steady(&self, before: &Self) -> bool {
        &&& self.module == before.module
        &&& self.masked_verbs == before.masked_verbs
        &&& self.scopes@.len() == before.scopes@.len()
        &&& before.naming.is_ordered() ==> self.naming.is_ordered()
        &&& before.naming.is_numbered() ==> self.naming.is_numbered()
        &&& sites_agree(before.bindings_by_site, before.naming.bindings@) ==> sites_agree(
            self.bindings_by_site,
            self.naming.bindings@,
        )
    }

    fn stable_scope_id(&mut self, expression: ExprId) -> (r: u32)
        ensures
            (final(self)@, r) == old(self)@.frame_id(expression),
            final(self).steady(old(self)),
    {
        match fx::fx_get(&self.scope_ids, expression.0) {
            Some(id) => *id,
            None => {
                let count: usize = fx::fx_len(&self.scope_ids);
                let next = (count as u128 + 1) as u32;
                fx::fx_insert(&mut self.scope_ids, expression.0, next);
                next
            },
        }
    }

    fn mint_binding(&mut self, name: &String, range: TextRange, kind: BindingKind) -> (r: BindingId)
        requires
            old(self).wf(),
        ensures
            (final(self)@, r) == old(self)@.mint(name@, range, kind),
            final(self).steady(old(self)),
    {
        let found = fx::get_site(&self.bindings_by_site, range.start, range.end, name.as_str());
        assert(site_agrees(
            self.bindings_by_site,
            self.naming.bindings@,
            (range.start, range.end, name@),
        ));
        if let Some(id) = found {
            return BindingId(id);
        }
        let id = BindingId(self.naming.bindings.len() as u32);
        let ghost map = self.bindings_by_site;
        let ghost before = self.naming.bindings@;
        fx::insert_site(
            &mut self.bindings_by_site,
            range.start,
            range.end,
            name.as_str(),
            id.0,
        );
        self.naming.bindings.push(BindingInfo { id, name: name.clone(), range, kind });
        assert(self@.bindings =~= old(self)@.bindings.push(BindingV { name: name@, range, kind }));
        proof {
            one_more_site(map, before, self.bindings_by_site, self.naming.bindings@);
        }
        id
    }

    fn bind(&mut self, name: &String, slot: BindingId)
        requires
            old(self).wf(),
        ensures
            final(self)@ == old(self)@.bind(name@, slot),
            final(self).steady(old(self)),
    {
        let scope = self.scopes.pop();
        if let Some(mut scope) = scope {
            let ghost before = scope@;
            scope.slots.push((name.clone(), slot));
            assert(scope@.slots =~= before.slots.push((name@, slot)));
            self.scopes.push(scope);
        }
        assert(self@.scopes =~= old(self)@.bind(name@, slot).scopes);
    }

    fn own_slot(&self, name: &str) -> (r: Option<BindingId>)
        requires
            self.wf(),
        ensures
            r == self@.own_slot(name@),
    {
        self.scopes[self.scopes.len() - 1].slot(name)
    }

    fn current_function_depth(&self) -> (r: usize)
        ensures
            r == self@.depth(),
            r <= self.scopes@.len(),
    {
        let mut i: usize = self.scopes.len();
        while i > 0
            invariant
                i <= self.scopes@.len(),
                walk::function_depth(self@.scopes, i as nat) == self@.depth(),
            decreases i,
        {
            if matches!(self.scopes[i - 1].kind, ScopeKind::Function) {
                return i - 1;
            }
            i -= 1;
        }
        0
    }

    fn record_write(&mut self, slot: BindingId, reaches: Reaches)
        ensures
            final(self)@ == old(self)@.written(slot, reaches@),
            final(self).steady(old(self)),
    {
        self.flow.insert(slot.0, reaches);
    }
}

impl<'a> Context<'a> {
    /// Marks the writes that reach a slot as used.
    fn mark_reached(&mut self, slot: BindingId) -> (r: bool)
        ensures
            old(self)@.flow.dom().contains(slot.0) ==> {
                &&& r == old(self)@.flow[slot.0].unassigned
                &&& final(self)@ == (WalkV {
                    writes: old(self)@.reached_writes(old(self)@.flow[slot.0]),
                    ..old(self)@
                })
            },
            !old(self)@.flow.dom().contains(slot.0) ==> !r && final(self)@ == old(self)@,
            final(self).steady(old(self)),
    {
        let reaches = match self.flow.get(slot.0) {
            Some(reaches) => reaches,
            None => {
                return false;
            },
        };
        let mut i: usize = 0;
        while i < self.writes.len()
            invariant
                i <= self.writes.len(),
                self.writes@.len() == old(self).writes@.len(),
                forall|j: int|
                    #![trigger self.writes@[j]]
                    0 <= j < i ==> self.writes@[j]@ == old(self)@.reached_writes(reaches@)[j],
                forall|j: int|
                    #![trigger self.writes@[j]]
                    i <= j < self.writes@.len() ==> self.writes@[j] == old(self).writes@[j],
                self.module == old(self).module,
                self.masked_verbs == old(self).masked_verbs,
                self.bindings_by_site == old(self).bindings_by_site,
                self.scopes == old(self).scopes,
                self.scope_ids == old(self).scope_ids,
                self.flow == old(self).flow,
                self.write_by_expression == old(self).write_by_expression,
                self.read_parameter_slots == old(self).read_parameter_slots,
                self.emit == old(self).emit,
                self.loop_exits == old(self).loop_exits,
                self.quiet == old(self).quiet,
                self.deferred == old(self).deferred,
                self.quoted == old(self).quoted,
                self.naming == old(self).naming,
            decreases self.writes.len() - i,
        {
            assert(self.writes@[i as int] == old(self).writes@[i as int]);
            if i as u64 <= 0xffff_ffffu64 && reaches.has_write(i as u32) {
                self.writes[i].used = true;
            }
            i += 1;
        }
        let r = reaches.unassigned;
        assert(writes_view(self.writes@) =~= old(self)@.reached_writes(reaches@));
        r
    }

    /// Marks every write of a name in one frame as used.
    fn mark_frame(&mut self, frame: u32, name: &str)
        ensures
            final(self)@ == old(self)@.frame_used(frame, name@),
            final(self).steady(old(self)),
    {
        let mut i: usize = 0;
        while i < self.writes.len()
            invariant
                i <= self.writes.len(),
                self.writes@.len() == old(self).writes@.len(),
                forall|j: int|
                    #![trigger self.writes@[j]]
                    0 <= j < i ==> self.writes@[j]@ == old(self)@.frame_used(frame, name@).writes[j],
                forall|j: int|
                    #![trigger self.writes@[j]]
                    i <= j < self.writes@.len() ==> self.writes@[j] == old(self).writes@[j],
                self.module == old(self).module,
                self.masked_verbs == old(self).masked_verbs,
                self.bindings_by_site == old(self).bindings_by_site,
                self.scopes == old(self).scopes,
                self.scope_ids == old(self).scope_ids,
                self.flow == old(self).flow,
                self.write_by_expression == old(self).write_by_expression,
                self.read_parameter_slots == old(self).read_parameter_slots,
                self.emit == old(self).emit,
                self.loop_exits == old(self).loop_exits,
                self.quiet == old(self).quiet,
                self.deferred == old(self).deferred,
                self.quoted == old(self).quoted,
                self.naming == old(self).naming,
            decreases self.writes.len() - i,
        {
            assert(self.writes@[i as int] == old(self).writes@[i as int]);
            if self.writes[i].scope == frame && same_text(self.writes[i].name.as_str(), name) {
                self.writes[i].used = true;
            }
            i += 1;
        }
        assert(writes_view(self.writes@) =~= old(self)@.frame_used(frame, name@).writes);
    }

    /// The slot a read sees, innermost scope first.
    fn visible_slot(&self, name: &str) -> (r: Option<(usize, BindingId)>)
        ensures
            match r {
                Some((depth, slot)) => depth < self.scopes@.len() && self@.visible_slot(
                    name@,
                    self@.scopes.len(),
                ) == Some((depth as nat, slot)),
                None => self@.visible_slot(name@, self@.scopes.len()) is None,
            },
    {
        let function_depth: usize = self.current_function_depth();
        let mut i: usize = self.scopes.len();
        while i > 0
            invariant
                i <= self.scopes@.len(),
                function_depth == self@.depth(),
                self@.visible_slot(name@, i as nat) == self@.visible_slot(
                    name@,
                    self@.scopes.len(),
                ),
            decreases i,
        {
            assert(self@.scopes[i - 1] == self.scopes@[i - 1]@);
            if let Some(slot) = self.scopes[i - 1].slot(name) {
                if self.flow.contains(slot.0) || i - 1 < function_depth {
                    return Some((i - 1, slot));
                }
            }
            i -= 1;
        }
        None
    }

    /// Marks a slot read as its kind asks.
    fn mark_kind(&mut self, slot: BindingId, name: &String)
        ensures
            final(self)@ == old(self)@.kind_read(slot, name@),
            final(self).steady(old(self)),
    {
        if (slot.0 as usize) < self.naming.bindings.len() {
            assert(self@.bindings[slot.0 as int] == self.naming.bindings@[slot.0 as int]@);
            match self.naming.bindings[slot.0 as usize].kind {
                BindingKind::Parameter => {
                    self.read_parameter_slots.insert(slot.0);
                },
                BindingKind::TopLevel => {
                    order::add_text(&mut self.naming.used_top_level_names, name.clone());
                },
                _ => {},
            }
        }
    }

    /// The slot half of a read: finds the name's slot and marks every write that
    /// reaches it used. The second part of the result tells whether a path
    /// without a write reaches it.
    fn mark_slot_read(&mut self, name: &String) -> (r: Option<(BindingId, bool)>)
        ensures
            (final(self)@, r) == old(self)@.slot_read(name@),
            final(self).steady(old(self)),
    {
        let function_depth: usize = self.current_function_depth();
        let (depth, slot) = match self.visible_slot(name.as_str()) {
            Some(found) => found,
            None => {
                return None;
            },
        };
        let frame: u32 = self.scopes[depth].id;
        assert(frame == self@.scopes[depth as int].id);
        self.mark_kind(slot, name);
        let ghost marked = self@;
        assert(marked.flow == old(self)@.flow && marked.writes == old(self)@.writes);
        let maybe_undefined: bool = self.mark_reached(slot);
        if depth < function_depth || self.deferred {
            self.mark_frame(frame, name.as_str());
            self.naming.captured_slots.insert(slot.0);
        }
        Some((slot, maybe_undefined))
    }

    fn resolve_read(&mut self, id: ExprId, name: &String)
        ensures
            final(self)@ == old(self)@.read(id, name@),
            final(self).steady(old(self)),
    {
        if is_dots(name) {
            return;
        }
        match self.mark_slot_read(name) {
            Some((slot, maybe_undefined)) => {
                self.naming.resolutions.insert(id.0, slot);
                if maybe_undefined && self.emit {
                    self.naming.maybe_undefined.insert(id.0);
                }
            },
            None => {
                if self.emit {
                    if !self.quiet {
                        self.naming.non_locals.insert(id.0, name.clone());
                        if self.current_function_depth() > 0 {
                            self.naming.deferred_non_locals.insert(id.0);
                        }
                    } else {
                        self.naming.quiet_reads.insert(id.0, name.clone());
                        if self.current_function_depth() > 0 {
                            self.naming.deferred_quiet_reads.insert(id.0);
                        }
                    }
                }
            },
        }
    }

    /// The frame that owns a slot under a name; the current one where none does.
    fn owner_of(&self, name: &str, slot: BindingId) -> (r: u32)
        requires
            self.wf(),
        ensures
            r == self@.owner_of(name@, slot, self@.scopes.len()),
    {
        let mut i: usize = self.scopes.len();
        while i > 0
            invariant
                i <= self.scopes@.len(),
                self.wf(),
                self@.owner_of(name@, slot, i as nat) == self@.owner_of(
                    name@,
                    slot,
                    self@.scopes.len(),
                ),
            decreases i,
        {
            assert(self@.scopes[i - 1] == self.scopes@[i - 1]@);
            if let Some(own) = self.scopes[i - 1].slot(name) {
                if own == slot {
                    return self.scopes[i - 1].id;
                }
            }
            i -= 1;
        }
        self.scopes[self.scopes.len() - 1].id
    }

    fn record_write_site(
        &mut self,
        assignment: ExprId,
        name: &String,
        range: TextRange,
        slot: BindingId,
        reportable: bool,
    )
        requires
            old(self).wf(),
        ensures
            final(self)@ == old(self)@.write_at(assignment, name@, range, slot, reportable),
            final(self).steady(old(self)),
    {
        let known: Option<u32> = match fx::fx_get(&self.write_by_expression, assignment.0) {
            Some(index) => Some(*index),
            None => None,
        };
        let index: u32 = match known {
            Some(index) => index,
            None => {
                let index = self.writes.len() as u32;
                let scope: u32 = self.owner_of(name.as_str(), slot);
                self.writes.push(
                    AssignmentWrite { name: name.clone(), range, scope, used: false, reportable },
                );
                fx::fx_insert(&mut self.write_by_expression, assignment.0, index);
                index
            },
        };
        let ghost placed = self@;
        proof {
            if known is None {
                assert(placed.writes =~= old(self)@.writes.push(
                    WriteV {
                        name: name@,
                        range,
                        scope: old(self)@.owner_of(name@, slot, old(self)@.scopes.len()),
                        used: false,
                        reportable,
                    },
                ));
            }
        }
        if self.naming.captured_slots.contains(&slot.0) && (index as usize) < self.writes.len() {
            self.writes[index as usize].used = true;
            assert(self@.writes =~= placed.writes.update(
                index as int,
                WriteV { used: true, ..placed.writes[index as int] },
            ));
        }
        self.record_write(slot, Reaches::write(index));
    }

    fn own_kind(&self) -> (r: BindingKind)
        requires
            self.wf(),
        ensures
            r == self@.own_kind(),
    {
        assert(self@.scopes[self@.scopes.len() - 1] == self.scopes@[self.scopes@.len() - 1]@);
        match self.scopes[self.scopes.len() - 1].kind {
            ScopeKind::TopLevel => BindingKind::TopLevel,
            _ => BindingKind::Local,
        }
    }

    /// The slot of a name in the current scope, minted where it has none.
    fn own_or_minted(&mut self, name: &String, range: TextRange) -> (r: BindingId)
        requires
            old(self).wf(),
        ensures
            (final(self)@, r) == old(self)@.own_or_minted(name@, range),
            final(self).steady(old(self)),
    {
        match self.own_slot(name.as_str()) {
            Some(slot) => slot,
            None => {
                let kind = self.own_kind();
                let slot = self.mint_binding(name, range, kind);
                self.bind(name, slot);
                slot
            },
        }
    }

    fn assign_own(&mut self, assignment: ExprId, target: ExprId, name: &String, range: TextRange)
        requires
            old(self).wf(),
        ensures
            final(self)@ == old(self)@.assign_own(assignment, target, name@, range),
            final(self).steady(old(self)),
    {
        let reportable = matches!(self.own_kind(), BindingKind::Local);
        let slot = self.own_or_minted(name, range);
        self.naming.resolutions.insert(target.0, slot);
        self.record_write_site(assignment, name, range, slot, reportable);
    }

    /// The nearest slot of a name in a strictly enclosing scope.
    fn enclosing_slot(&self, name: &str) -> (r: Option<(usize, BindingId)>)
        requires
            self.wf(),
        ensures
            match r {
                Some((depth, slot)) => depth < self.scopes@.len() && self@.enclosing_slot(
                    name@,
                    (self@.scopes.len() - 1) as nat,
                ) == Some((depth as nat, slot)),
                None => self@.enclosing_slot(name@, (self@.scopes.len() - 1) as nat) is None,
            },
    {
        let mut i: usize = self.scopes.len() - 1;
        while i > 0
            invariant
                i < self.scopes@.len(),
                self@.enclosing_slot(name@, i as nat) == self@.enclosing_slot(
                    name@,
                    (self@.scopes.len() - 1) as nat,
                ),
            decreases i,
        {
            assert(self@.scopes[i - 1] == self.scopes@[i - 1]@);
            if let Some(slot) = self.scopes[i - 1].slot(name) {
                return Some((i - 1, slot));
            }
            i -= 1;
        }
        None
    }

    fn assign_super(&mut self, assignment: ExprId, target: ExprId, name: &String, range: TextRange)
        requires
            old(self).wf(),
        ensures
            final(self)@ == old(self)@.assign_super(assignment, target, name@, range),
            final(self).steady(old(self)),
    {
        match self.enclosing_slot(name.as_str()) {
            Some((depth, slot)) => {
                let frame: u32 = self.scopes[depth].id;
                assert(frame == self@.scopes[depth as int].id);
                self.naming.resolutions.insert(target.0, slot);
                self.naming.captured_slots.insert(slot.0);
                self.mark_frame(frame, name.as_str());
                self.record_write_site(assignment, name, range, slot, true);
            },
            None => {
                if self.emit {
                    self.naming.non_locals.insert(target.0, name.clone());
                    order::add_text(&mut self.naming.super_globals, name.clone());
                }
            },
        }
    }

    fn bind_parameters(&mut self, parameters: &Vec<Parameter>)
        requires
            old(self).wf(),
        ensures
            final(self)@ == old(self)@.with_parameters(parameters@, 0),
            final(self).steady(old(self)),
    {
        let mut i: usize = 0;
        while i < parameters.len()
            invariant
                i <= parameters.len(),
                self.wf(),
                self.steady(old(self)),
                self@.with_parameters(parameters@, i as int) == old(self)@.with_parameters(
                    parameters@,
                    0,
                ),
            decreases parameters.len() - i,
        {
            let parameter = &parameters[i];
            let slot = self.mint_binding(&parameter.name, parameter.range, BindingKind::Parameter);
            self.bind(&parameter.name, slot);
            self.record_write(slot, Reaches::implicit());
            i += 1;
        }
    }

    fn premint_slot(&mut self, name: &String, range: TextRange, kind: BindingKind)
        requires
            old(self).wf(),
        ensures
            final(self)@ == old(self)@.preminted(name@, range, kind),
            final(self).steady(old(self)),
    {
        if self.own_slot(name.as_str()).is_some() {
            return;
        }
        let slot = self.mint_binding(name, range, kind);
        self.bind(name, slot);
    }

    /// Gives a slot to every name a frame's body assigns.
    fn premint_frame_assignments(&mut self, id: ExprId)
        requires
            old(self).wf(),
            old(self).module.holds(id),
        ensures
            final(self)@ == old(self)@.premint(*old(self).module, id),
            final(self).steady(old(self)),
        decreases id.0, 1int,
    {
        let module = self.module;
        let kind = module.kind(id);
        assert(kind.built_below(id.0 as int));
        match kind {
            ExpressionKind::Function { .. } | ExpressionKind::Local { .. } => {},
            ExpressionKind::Assign { spelling, target, value } => {
                if *spelling != AssignSpelling::Super {
                    match module.kind(*target) {
                        ExpressionKind::NameRef(name)
                        | ExpressionKind::Literal(LiteralKind::String(name)) => {
                            self.premint_slot(name, module.range(*target), BindingKind::Local);
                        },
                        _ => {},
                    }
                }
                self.premint_frame_assignments(*value);
            },
            ExpressionKind::For { variable, variable_range, sequence, body } => {
                if let (Some(variable), Some(range)) = (variable, variable_range) {
                    self.premint_slot(variable, *range, BindingKind::ForVariable);
                }
                let mut ids: Vec<ExprId> = Vec::new();
                ids.push(*sequence);
                ids.push(*body);
                assert(ids@ =~= seq![*sequence, *body]);
                self.premint_all(id, &ids);
            },
            ExpressionKind::Call { callee, .. } => {
                if !builds_expression(module, *callee) {
                    let ids = kind.child_ids();
                    proof {
                        hir::children_are_below(*kind, id.0 as int);
                    }
                    self.premint_all(id, &ids);
                }
            },
            _ => {
                let ids = kind.child_ids();
                proof {
                    hir::children_are_below(*kind, id.0 as int);
                }
                self.premint_all(id, &ids);
            },
        }
    }

    fn premint_all(&mut self, bound: ExprId, ids: &Vec<ExprId>)
        requires
            old(self).wf(),
            old(self).module.holds(bound),
            hir::all_below(ids@, bound.0 as int),
        ensures
            final(self)@ == old(self)@.premint_all(*old(self).module, bound, ids@, 0),
            final(self).steady(old(self)),
        decreases bound.0, 0int,
    {
        let mut i: usize = 0;
        while i < ids.len()
            invariant
                i <= ids.len(),
                self.wf(),
                self.steady(old(self)),
                self.module.holds(bound),
                hir::all_below(ids@, bound.0 as int),
                self@.premint_all(*self.module, bound, ids@, i as int) == old(self)@.premint_all(
                    *self.module,
                    bound,
                    ids@,
                    0,
                ),
            decreases ids.len() - i,
        {
            assert(ids@[i as int].0 < bound.0);
            self.premint_frame_assignments(ids[i]);
            i += 1;
        }
    }
}

/// Whether a name stands for rest arguments: `...`, `..1` and so on.
fn is_dots(name: &String) -> (r: bool)
    ensures
        r == walk::is_dots(name@),
{
    let chars = chars_of(name.as_str());
    if chars.len() < 2 || chars[0] != '.' || chars[1] != '.' {
        return false;
    }
    if chars.len() == 3 && chars[2] == '.' {
        assert(name@ =~= seq!['.', '.', '.']);
        return true;
    }
    let mut i: usize = 2;
    while i < chars.len()
        invariant
            2 <= i <= chars.len(),
            chars@ == name@,
            chars@[0] == '.' && chars@[1] == '.',
            !(chars@.len() == 3 && chars@[2] == '.'),
            forall|j: int| 2 <= j < i ==> '0' <= #[trigger] name@[j] <= '9',
        decreases chars.len() - i,
    {
        if chars[i] < '0' || chars[i] > '9' {
            assert(!('0' <= name@[i as int] && name@[i as int] <= '9'));
            return false;
        }
        i += 1;
    }
    true
}

/// The base data-masking verbs, and the formal that holds their data.
fn base_masking_family(name: &str) -> (r: Option<Vec<String>>)
    ensures
        match r {
            Some(leading) => walk::base_masking(name@) == Some(types::texts(leading@)),
            None => walk::base_masking(name@) is None,
        },
{
    if same_text(name, "with") || same_text(name, "within") {
        let leading = one_text("data");
        Some(leading)
    } else if same_text(name, "subset") || same_text(name, "transform") {
        let leading = one_text("x");
        Some(leading)
    } else {
        None
    }
}

fn one_text(text: &str) -> (r: Vec<String>)
    ensures
        types::texts(r@) == seq![text@],
{
    let mut list: Vec<String> = Vec::new();
    list.push(text.to_string());
    assert(types::texts(list@) =~= seq![text@]);
    list
}

/// A declared masking verb, and the formals that hold its data.
fn declared_masked_verb(masked_verbs: &FxHashMap<String, Vec<String>>, name: &str) -> (r: Option<
    Vec<String>,
>)
    ensures
        match r {
            Some(leading) => walk::declared_masking(fx::listed_texts(*masked_verbs), name@) == Some(
                types::texts(leading@),
            ),
            None => walk::declared_masking(fx::listed_texts(*masked_verbs), name@) is None,
        },
{
    match fx::get_listed_texts(masked_verbs, name) {
        Some(list) => {
            let mut leading: Vec<String> = Vec::new();
            let mut i: usize = 0;
            while i < list.len()
                invariant
                    i <= list.len(),
                    types::texts(leading@) =~= types::texts(list@).subrange(0, i as int),
                decreases list.len() - i,
            {
                leading.push(list[i].clone());
                i += 1;
            }
            assert(types::texts(leading@) =~= types::texts(list@));
            Some(leading)
        },
        None => None,
    }
}

fn masking(masked_verbs: &FxHashMap<String, Vec<String>>, name: &str) -> (r: Option<Vec<String>>)
    ensures
        match r {
            Some(leading) => walk::masking(fx::listed_texts(*masked_verbs), name@) == Some(
                types::texts(leading@),
            ),
            None => walk::masking(fx::listed_texts(*masked_verbs), name@) is None,
        },
{
    match base_masking_family(name) {
        Some(leading) => Some(leading),
        None => declared_masked_verb(masked_verbs, name),
    }
}

/// Whether an expression cannot fall through to what follows it.
pub(crate) fn diverges(module: &Module, id: ExprId) -> (r: bool)
    requires
        module.wf(),
        module.holds(id),
    ensures
        r == walk::diverges(*module, id),
    decreases id.0,
{
    let kind = module.kind(id);
    assert(kind.built_below(id.0 as int));
    match kind {
        ExpressionKind::Break | ExpressionKind::Next => true,
        ExpressionKind::Call { callee, .. } => module.is_name(*callee, "return") || module.is_name(
            *callee,
            "stop",
        ),
        ExpressionKind::Block { statements, .. } => {
            if statements.len() > 0 {
                diverges(module, statements[statements.len() - 1])
            } else {
                false
            }
        },
        ExpressionKind::If { then_branch, else_branch, .. } => match else_branch {
            Some(else_branch) => diverges(module, *then_branch) && diverges(module, *else_branch),
            None => false,
        },
        ExpressionKind::Paren(inner) => diverges(module, *inner),
        _ => false,
    }
}

/// Whether a target of this shape is certainly refused.
fn refuses_assignment(kind: &ExpressionKind) -> (r: bool)
    ensures
        r == walk::refuses_assignment(*kind),
{
    match kind {
        ExpressionKind::Binary { .. } => true,
        ExpressionKind::Unary { operator, .. } => *operator != UnaryOperator::Not,
        ExpressionKind::Literal(literal) => !matches!(literal, LiteralKind::String(_)),
        _ => false,
    }
}

fn is_table_special(name: &str) -> (r: bool)
    ensures
        r == walk::is_table_special(name@),
{
    same_text(name, ".SD") || same_text(name, ".N") || same_text(name, ".I") || same_text(
        name,
        ".BY",
    ) || same_text(name, ".GRP") || same_text(name, ".EACHI")
}

/// Whether an expression carries data.table syntax outside nested functions.
fn data_table_marker(module: &Module, id: ExprId) -> (r: bool)
    requires
        module.wf(),
        module.holds(id),
    ensures
        r == walk::table_marker(*module, id),
    decreases id.0, 1int,
{
    let kind = module.kind(id);
    assert(kind.built_below(id.0 as int));
    proof {
        hir::children_are_below(*kind, id.0 as int);
    }
    match kind {
        ExpressionKind::NameRef(name) => is_table_special(name.as_str()),
        ExpressionKind::Function { .. } => false,
        ExpressionKind::Call { callee, .. } => {
            let ids = kind.child_ids();
            module.is_name(*callee, ":=") || module.is_name(*callee, ".") || any_data_table_marker(
                module,
                id,
                &ids,
            )
        },
        _ => {
            let ids = kind.child_ids();
            any_data_table_marker(module, id, &ids)
        },
    }
}

fn any_data_table_marker(module: &Module, bound: ExprId, ids: &Vec<ExprId>) -> (r: bool)
    requires
        module.wf(),
        module.holds(bound),
        hir::all_below(ids@, bound.0 as int),
    ensures
        r == walk::any_table_marker(*module, bound, ids@, 0),
    decreases bound.0, 0int,
{
    let mut i: usize = 0;
    while i < ids.len()
        invariant
            i <= ids.len(),
            module.wf(),
            module.holds(bound),
            hir::all_below(ids@, bound.0 as int),
            walk::any_table_marker(*module, bound, ids@, 0) == walk::any_table_marker(
                *module,
                bound,
                ids@,
                i as int,
            ),
        decreases ids.len() - i,
    {
        assert(ids@[i as int].0 < bound.0);
        if data_table_marker(module, ids[i]) {
            return true;
        }
        i += 1;
    }
    false
}

/// Whether a `[` carries an unambiguous data.table signature.
fn data_table_signature(module: &Module, arguments: &Vec<Argument>) -> (r: bool)
    requires
        module.wf(),
        hir::values_below(arguments@, module.expressions@.len() as int),
    ensures
        r == walk::table_signature(*module, arguments@, 0),
{
    let mut i: usize = 0;
    while i < arguments.len()
        invariant
            i <= arguments.len(),
            module.wf(),
            hir::values_below(arguments@, module.expressions@.len() as int),
            walk::table_signature(*module, arguments@, 0) == walk::table_signature(
                *module,
                arguments@,
                i as int,
            ),
        decreases arguments.len() - i,
    {
        let argument = &arguments[i];
        assert(hir::opt_below(arguments@[i as int].value, module.expressions@.len() as int));
        if let Some(name) = &argument.name {
            if same_text(name.as_str(), "by") || same_text(name.as_str(), "keyby") {
                return true;
            }
        }
        if let Some(value) = argument.value {
            if data_table_marker(module, value) {
                return true;
            }
        }
        i += 1;
    }
    false
}

/// The name at the bottom of a replacement target.
pub(crate) fn replacement_base(module: &Module, target: ExprId) -> (r: Option<ExprId>)
    requires
        module.wf(),
        module.holds(target),
    ensures
        r == walk::replacement_base(*module, target),
        match r {
            Some(base) => base.0 <= target.0 && module.kind_of(base) is NameRef,
            None => true,
        },
    decreases target.0,
{
    let kind = module.kind(target);
    assert(kind.built_below(target.0 as int));
    match kind {
        ExpressionKind::NameRef(_) => Some(target),
        ExpressionKind::Field { target: inner, .. } => replacement_base(module, *inner),
        ExpressionKind::Index { target: inner, .. } => replacement_base(module, *inner),
        ExpressionKind::Call { arguments, .. } => {
            if arguments.len() > 0 {
                assert(hir::opt_below(arguments@[0].value, target.0 as int));
                match arguments[0].value {
                    Some(value) => replacement_base(module, value),
                    None => None,
                }
            } else {
                None
            }
        },
        _ => None,
    }
}

/// Whether a list of parameters has one of a name.
fn has_parameter(parameters: &Vec<Parameter>, name: &str) -> (r: bool)
    ensures
        r == exists|k: int|
            0 <= k < parameters@.len() && (#[trigger] parameters@[k]).name@ == name@,
{
    let mut k: usize = 0;
    while k < parameters.len()
        invariant
            k <= parameters.len(),
            forall|j: int| 0 <= j < k ==> (#[trigger] parameters@[j]).name@ != name@,
        decreases parameters.len() - k,
    {
        if same_text(parameters[k].name.as_str(), name) {
            assert(parameters@[k as int].name@ == name@);
            return true;
        }
        k += 1;
    }
    false
}

/// Whether the expression at a place binds a name.
fn binds_name(module: &Module, i: usize, name: &str) -> (r: bool)
    requires
        module.wf(),
        i < module.expressions@.len(),
    ensures
        r == walk::binds_name(*module, i as int, name@),
{
    let kind = &module.expressions[i].kind;
    assert(kind.built_below(i as int));
    match kind {
        ExpressionKind::Function { parameters, .. } => has_parameter(parameters, name),
        ExpressionKind::For { variable, .. } => match variable {
            Some(variable) => same_text(variable.as_str(), name),
            None => false,
        },
        ExpressionKind::Assign { target, .. } => {
            let direct = match module.kind(*target) {
                ExpressionKind::NameRef(own)
                | ExpressionKind::Literal(LiteralKind::String(own)) => same_text(
                    own.as_str(),
                    name,
                ),
                _ => false,
            };
            if direct {
                return true;
            }
            match replacement_base(module, *target) {
                Some(base) => module.is_name(base, name),
                None => false,
            }
        },
        _ => false,
    }
}

/// Whether an item binds a name anywhere.
fn item_binds(module: &Module, name: &str) -> (r: bool)
    requires
        module.wf(),
    ensures
        r == walk::item_binds(*module, name@),
{
    let mut i: usize = 0;
    while i < module.expressions.len()
        invariant
            i <= module.expressions.len(),
            module.wf(),
            forall|j: int| 0 <= j < i ==> !(#[trigger] walk::binds_name(*module, j, name@)),
        decreases module.expressions.len() - i,
    {
        if binds_name(module, i, name) {
            return true;
        }
        i += 1;
    }
    false
}

fn calls_unbound(module: &Module, callee: ExprId, name: &str) -> (r: bool)
    requires
        module.wf(),
        module.holds(callee),
    ensures
        r == walk::calls_unbound(*module, callee, name@),
{
    module.is_name(callee, name) && !item_binds(module, name)
}

/// Whether a call certainly builds an expression instead of running it.
fn builds_expression(module: &Module, callee: ExprId) -> (r: bool)
    requires
        module.wf(),
        module.holds(callee),
    ensures
        r == walk::builds_expression(*module, callee),
{
    calls_unbound(module, callee, "quote") || calls_unbound(module, callee, "substitute")
        || calls_unbound(module, callee, "bquote") || calls_unbound(module, callee, "expression")
}

/// How many arguments name a data formal.
fn claimed_by_name(arguments: &Vec<Argument>, leading: &Vec<String>) -> (r: usize)
    ensures
        r == walk::claimed_by_name(arguments@, types::texts(leading@), arguments@.len()),
{
    let mut count: usize = 0;
    let mut i: usize = 0;
    while i < arguments.len()
        invariant
            i <= arguments.len(),
            count <= i,
            count == walk::claimed_by_name(arguments@, types::texts(leading@), i as nat),
        decreases arguments.len() - i,
    {
        if let Some(name) = &arguments[i].name {
            if lists_name(leading, name) {
                count += 1;
            }
        }
        i += 1;
    }
    count
}

/// The subject of a `switch`: `EXPR`, or the first argument without a name.
fn switch_subject(arguments: &Vec<Argument>) -> (r: Option<usize>)
    ensures
        match r {
            Some(i) => i < arguments@.len() && walk::switch_subject(arguments@) == Some(i as int),
            None => walk::switch_subject(arguments@) is None,
        },
{
    let mut i: usize = 0;
    while i < arguments.len()
        invariant
            i <= arguments.len(),
            walk::argument_named(arguments@, "EXPR"@, 0) == walk::argument_named(
                arguments@,
                "EXPR"@,
                i as int,
            ),
        decreases arguments.len() - i,
    {
        if let Some(name) = &arguments[i].name {
            if same_text(name.as_str(), "EXPR") {
                return Some(i);
            }
        }
        i += 1;
    }
    let mut j: usize = 0;
    while j < arguments.len()
        invariant
            j <= arguments.len(),
            walk::argument_unnamed(arguments@, 0) == walk::argument_unnamed(arguments@, j as int),
            walk::argument_named(arguments@, "EXPR"@, 0) is None,
        decreases arguments.len() - j,
    {
        if arguments[j].name.is_none() {
            return Some(j);
        }
        j += 1;
    }
    None
}

/// Whether a `switch` has a default: exactly one body without a name beside
/// named alternatives.
fn has_default(arguments: &Vec<Argument>, subject: Option<usize>) -> (r: bool)
    requires
        match subject {
            Some(i) => walk::switch_subject(arguments@) == Some(i as int),
            None => walk::switch_subject(arguments@) is None,
        },
    ensures
        r == walk::has_default(arguments@),
{
    let ghost model = walk::switch_subject(arguments@);
    let mut named: usize = 0;
    let mut unnamed: usize = 0;
    let mut i: usize = 0;
    while i < arguments.len()
        invariant
            i <= arguments.len(),
            named <= i,
            unnamed <= i,
            match subject {
                Some(i) => model == Some(i as int),
                None => model is None,
            },
            named == walk::named_alternatives(arguments@, model, i as nat),
            unnamed == walk::unnamed_bodies(arguments@, model, i as nat),
        decreases arguments.len() - i,
    {
        let is_subject = match subject {
            Some(place) => place == i,
            None => false,
        };
        if !is_subject {
            if arguments[i].name.is_some() {
                named += 1;
            } else if arguments[i].value.is_some() {
                unnamed += 1;
            }
        }
        i += 1;
    }
    named > 0 && unnamed == 1
}

impl<'a> Context<'a> {
    fn masking_call(&self, callee: ExprId) -> (r: Option<Vec<String>>)
        requires
            self.module.holds(callee),
        ensures
            match r {
                Some(leading) => self@.masking_call(*self.module, self.verbs(), callee) == Some(
                    types::texts(leading@),
                ),
                None => self@.masking_call(*self.module, self.verbs(), callee) is None,
            },
    {
        match self.module.kind(callee) {
            ExpressionKind::NameRef(name) => {
                if self.naming.resolutions.contains_key(&callee.0) {
                    None
                } else {
                    masking(self.masked_verbs, name.as_str())
                }
            },
            ExpressionKind::Namespace { package, name, .. } => match name {
                Some(name) => {
                    let of_base = match package {
                        Some(package) => same_text(package.as_str(), "base"),
                        None => false,
                    };
                    if of_base {
                        masking(self.masked_verbs, name.as_str())
                    } else {
                        declared_masked_verb(self.masked_verbs, name.as_str())
                    }
                },
                None => None,
            },
            _ => None,
        }
    }

    fn calls_free(&self, callee: ExprId, name: &str) -> (r: bool)
        requires
            self.module.holds(callee),
        ensures
            r == self@.calls_free(*self.module, callee, name@),
    {
        self.module.is_name(callee, name) && !self.naming.resolutions.contains_key(&callee.0)
    }

    fn quotes_first(&self, callee: ExprId, arguments: &Vec<Argument>) -> (r: bool)
        requires
            self.module.holds(callee),
            hir::values_below(arguments@, self.module.expressions@.len() as int),
        ensures
            r == self@.quotes_first(*self.module, callee, arguments@),
    {
        let quoting_callee = self.module.is_name(callee, "library") || self.module.is_name(
            callee,
            "require",
        ) || self.module.is_name(callee, "help");
        if !quoting_callee || arguments.len() == 0 || arguments[0].name.is_some() {
            return false;
        }
        assert(hir::opt_below(arguments@[0].value, self.module.expressions@.len() as int));
        match arguments[0].value {
            Some(value) => matches!(self.module.kind(value), ExpressionKind::NameRef(_)),
            None => false,
        }
    }

    /// The walk of one expression.
    fn resolve(&mut self, id: ExprId)
        requires
            old(self).wf(),
            old(self).module.holds(id),
        ensures
            final(self)@ == old(self)@.resolve(*old(self).module, old(self).verbs(), id),
            final(self).steady(old(self)),
        decreases id.0, 10int,
    {
        let module = self.module;
        let kind = module.kind(id);
        assert(kind.built_below(id.0 as int));
        match kind {
            ExpressionKind::Missing | ExpressionKind::Next | ExpressionKind::Literal(_) => {},
            ExpressionKind::Break => {
                self.loop_exits.push(self.flow.duplicate());
                assert(self@.loop_exits =~= old(self)@.loop_exits.push(old(self)@.flow));
            },
            ExpressionKind::NameRef(name) => self.resolve_read(id, name),
            ExpressionKind::Assign { spelling, target, value } => {
                self.resolve_assign(id, *spelling, *target, *value);
            },
            ExpressionKind::Unary { operator, operand } => {
                if *operator != UnaryOperator::Tilde && *operator != UnaryOperator::Help {
                    self.below(id, *operand);
                }
            },
            ExpressionKind::Binary { operator, special_name, lhs, rhs } => {
                self.resolve_binary(id, *operator, special_name, *lhs, *rhs);
            },
            ExpressionKind::Call { callee, arguments } => {
                self.below(id, *callee);
                self.resolve_call(id, *callee, arguments);
            },
            ExpressionKind::Index { double, target, arguments } => {
                self.resolve_index(id, *double, *target, arguments);
            },
            ExpressionKind::Field { target, .. } => self.below(id, *target),
            ExpressionKind::Namespace { internal, package, name } => {
                self.namespace_read(id, *internal, package, name);
            },
            ExpressionKind::Function { parameters, body } => {
                self.resolve_function(id, parameters, *body);
            },
            ExpressionKind::If { condition, then_branch, else_branch } => {
                self.resolve_if(id, *condition, *then_branch, *else_branch);
            },
            ExpressionKind::For { variable, variable_range, sequence, body } => {
                self.below(id, *sequence);
                self.loop_variable(variable, *variable_range);
                self.loop_body(id, *body, true);
            },
            ExpressionKind::While { condition, body } => {
                self.below(id, *condition);
                self.loop_body(id, *body, true);
            },
            ExpressionKind::Repeat { body } => self.loop_body(id, *body, false),
            ExpressionKind::Local { body } => self.resolve_local(id, *body),
            ExpressionKind::Block { statements, .. } => self.resolve_many(id, statements),
            ExpressionKind::Paren(inner) => self.below(id, *inner),
        }
    }

    fn resolve_assign(&mut self, id: ExprId, spelling: AssignSpelling, target: ExprId, value: ExprId)
        requires
            old(self).wf(),
            old(self).module.holds(id),
            target.0 < id.0,
            value.0 < id.0,
        ensures
            final(self)@ == old(self)@.resolve_assign(
                *old(self).module,
                old(self).verbs(),
                id,
                spelling,
                target,
                value,
            ),
            final(self).steady(old(self)),
        decreases id.0, 9int,
    {
        if matches!(self.module.kind(target), ExpressionKind::NameRef(_)) {
            self.below(id, value);
            self.resolve_assignment_target(id, target, spelling);
        } else {
            self.resolve_assignment_target(id, target, spelling);
            self.below(id, value);
        }
    }

    fn resolve_binary(&mut self, id: ExprId, operator: BinaryOperator, special_name: &Option<String>, lhs: ExprId, rhs: ExprId)
        requires
            old(self).wf(),
            old(self).module.holds(id),
            lhs.0 < id.0,
            rhs.0 < id.0,
        ensures
            final(self)@ == old(self)@.resolve_binary(
                *old(self).module,
                old(self).verbs(),
                id,
                operator,
                types::opt_text(*special_name),
                lhs,
                rhs,
            ),
            final(self).steady(old(self)),
        decreases id.0, 9int,
    {
        if let Some(name) = special_name {
            order::add_text(&mut self.naming.quiet_operator_reads, name.clone());
            self.mark_slot_read(name);
        }
        let quiet = self.quiet;
        match operator {
            BinaryOperator::Tilde | BinaryOperator::Help => {},
            BinaryOperator::And | BinaryOperator::Or | BinaryOperator::Pipe
            | BinaryOperator::Special => {
                self.quiet = true;
                self.below(id, lhs);
                self.below(id, rhs);
                self.quiet = quiet;
            },
            _ => {
                self.below(id, lhs);
                self.below(id, rhs);
            },
        }
    }

    fn resolve_index(&mut self, id: ExprId, double: bool, target: ExprId, arguments: &Vec<Argument>)
        requires
            old(self).wf(),
            old(self).module.holds(id),
            target.0 < id.0,
            hir::values_below(arguments@, id.0 as int),
        ensures
            final(self)@ == old(self)@.resolve_index(
                *old(self).module,
                old(self).verbs(),
                id,
                double,
                target,
                arguments@,
            ),
            final(self).steady(old(self)),
        decreases id.0, 9int,
    {
        proof {
            assert forall|i: int|
                #![trigger arguments@[i]]
                0 <= i < arguments@.len() implies hir::opt_below(
                arguments@[i].value,
                self.module.expressions@.len() as int,
            ) by {
                assert(hir::opt_below(arguments@[i].value, id.0 as int));
            }
        }
        let quiet = self.quiet;
        self.below(id, target);
        if !double && data_table_signature(self.module, arguments) {
            self.naming.masked_subsets.insert(id.0);
            self.quiet = true;
            self.resolve_arguments(id, arguments, 0);
            self.quiet = quiet;
        } else {
            self.resolve_arguments(id, arguments, 0);
        }
    }

    fn namespace_read(
        &mut self,
        id: ExprId,
        internal: bool,
        package: &Option<String>,
        name: &Option<String>,
    )
        ensures
            final(self)@ == old(self)@.namespace_read(
                id,
                internal,
                types::opt_text(*package),
                types::opt_text(*name),
            ),
            final(self).steady(old(self)),
    {
        if let Some(package) = package {
            if self.emit && !self.quiet {
                let read = NamespaceRead {
                    internal,
                    package: package.clone(),
                    name: match name {
                        Some(name) => Some(name.clone()),
                        None => None,
                    },
                };
                self.naming.namespace_reads.insert(id.0, read);
            }
        }
    }

    fn resolve_function(&mut self, id: ExprId, parameters: &Vec<Parameter>, body: ExprId)
        requires
            old(self).wf(),
            old(self).module.holds(id),
            body.0 < id.0,
            hir::defaults_below(parameters@, id.0 as int),
        ensures
            final(self)@ == old(self)@.resolve_function(
                *old(self).module,
                old(self).verbs(),
                id,
                parameters@,
                body,
            ),
            final(self).steady(old(self)),
        decreases id.0, 9int,
    {
        let scope_id: u32 = self.stable_scope_id(id);
        self.push_scope(ScopeKind::Function, scope_id);
        let saved_flow = self.flow.duplicate();
        self.flow = FlowState::empty();
        self.bind_parameters(parameters);
        self.premint_frame_assignments(body);
        self.resolve_defaults(id, parameters);
        self.below(id, body);
        self.pop_scope();
        self.flow = saved_flow;
    }

    fn resolve_if(&mut self, id: ExprId, condition: ExprId, then_branch: ExprId, else_branch: Option<ExprId>)
        requires
            old(self).wf(),
            old(self).module.holds(id),
            condition.0 < id.0,
            then_branch.0 < id.0,
            hir::opt_below(else_branch, id.0 as int),
        ensures
            final(self)@ == old(self)@.resolve_if(
                *old(self).module,
                old(self).verbs(),
                id,
                condition,
                then_branch,
                else_branch,
            ),
            final(self).steady(old(self)),
        decreases id.0, 9int,
    {
        self.below(id, condition);
        let entry = self.flow.duplicate();
        self.below(id, then_branch);
        let after_then = self.flow.duplicate();
        self.flow = entry;
        if let Some(else_branch) = else_branch {
            self.below(id, else_branch);
        }
        join_flow(&mut self.flow, &after_then);
    }

    fn loop_variable(&mut self, variable: &Option<String>, range: Option<TextRange>)
        requires
            old(self).wf(),
        ensures
            final(self)@ == old(self)@.loop_variable(types::opt_text(*variable), range),
            final(self).steady(old(self)),
    {
        if let (Some(variable), Some(range)) = (variable, range) {
            let slot = self.mint_binding(variable, range, BindingKind::ForVariable);
            self.bind(variable, slot);
            self.record_write(slot, Reaches::implicit());
        }
    }

    fn resolve_local(&mut self, id: ExprId, body: ExprId)
        requires
            old(self).wf(),
            old(self).module.holds(id),
            body.0 < id.0,
        ensures
            final(self)@ == old(self)@.resolve_local(
                *old(self).module,
                old(self).verbs(),
                id,
                body,
            ),
            final(self).steady(old(self)),
        decreases id.0, 9int,
    {
        let scope_id: u32 = self.stable_scope_id(id);
        self.push_scope(ScopeKind::Local, scope_id);
        self.premint_frame_assignments(body);
        self.below(id, body);
        self.pop_scope();
    }

    /// The walk of an expression that stands before another.
    fn below(&mut self, bound: ExprId, id: ExprId)
        requires
            old(self).wf(),
            old(self).module.holds(bound),
            id.0 < bound.0,
        ensures
            final(self)@ == old(self)@.below(*old(self).module, old(self).verbs(), bound, id),
            final(self).steady(old(self)),
        decreases bound.0, 0int,
    {
        self.resolve(id);
    }

    fn push_scope(&mut self, kind: ScopeKind, id: u32)
        ensures
            final(self)@ == old(self)@.enter(kind, id),
            final(self).module == old(self).module,
            final(self).masked_verbs == old(self).masked_verbs,
            final(self).bindings_by_site == old(self).bindings_by_site,
            final(self).scopes@.len() == old(self).scopes@.len() + 1,
            final(self).naming == old(self).naming,
    {
        self.scopes.push(Scope::new(kind, id));
        assert(self@.scopes =~= old(self)@.enter(kind, id).scopes);
    }

    fn pop_scope(&mut self)
        requires
            old(self).scopes@.len() > 0,
        ensures
            final(self)@ == old(self)@.leave(),
            final(self).module == old(self).module,
            final(self).masked_verbs == old(self).masked_verbs,
            final(self).bindings_by_site == old(self).bindings_by_site,
            final(self).scopes@.len() == old(self).scopes@.len() - 1,
            final(self).naming == old(self).naming,
    {
        self.scopes.pop();
        assert(self@.scopes =~= old(self)@.leave().scopes);
    }

    fn resolve_many(&mut self, bound: ExprId, ids: &Vec<ExprId>)
        requires
            old(self).wf(),
            old(self).module.holds(bound),
            hir::all_below(ids@, bound.0 as int),
        ensures
            final(self)@ == old(self)@.resolve_all(
                *old(self).module,
                old(self).verbs(),
                bound,
                ids@,
                0,
            ),
            final(self).steady(old(self)),
        decreases bound.0, 1int,
    {
        let mut i: usize = 0;
        while i < ids.len()
            invariant
                i <= ids.len(),
                self.wf(),
                self.steady(old(self)),
                self.module.holds(bound),
                hir::all_below(ids@, bound.0 as int),
                self@.resolve_all(*self.module, self.verbs(), bound, ids@, i as int) == old(
                    self,
                )@.resolve_all(*self.module, self.verbs(), bound, ids@, 0),
            decreases ids.len() - i,
        {
            assert(ids@[i as int].0 < bound.0);
            self.below(bound, ids[i]);
            i += 1;
        }
    }

    fn resolve_arguments(&mut self, bound: ExprId, arguments: &Vec<Argument>, from: usize)
        requires
            old(self).wf(),
            old(self).module.holds(bound),
            hir::values_below(arguments@, bound.0 as int),
        ensures
            final(self)@ == old(self)@.resolve_arguments(
                *old(self).module,
                old(self).verbs(),
                bound,
                arguments@,
                from as int,
            ),
            final(self).steady(old(self)),
        decreases bound.0, 1int,
    {
        let mut i: usize = from;
        while i < arguments.len()
            invariant
                from <= i,
                self.wf(),
                self.steady(old(self)),
                self.module.holds(bound),
                hir::values_below(arguments@, bound.0 as int),
                self@.resolve_arguments(*self.module, self.verbs(), bound, arguments@, i as int)
                    == old(self)@.resolve_arguments(
                    *self.module,
                    self.verbs(),
                    bound,
                    arguments@,
                    from as int,
                ),
            decreases arguments.len() - i,
        {
            assert(hir::opt_below(arguments@[i as int].value, bound.0 as int));
            if let Some(value) = arguments[i].value {
                self.below(bound, value);
            }
            i += 1;
        }
    }

    fn resolve_defaults(&mut self, bound: ExprId, parameters: &Vec<Parameter>)
        requires
            old(self).wf(),
            old(self).module.holds(bound),
            hir::defaults_below(parameters@, bound.0 as int),
        ensures
            final(self)@ == old(self)@.resolve_defaults(
                *old(self).module,
                old(self).verbs(),
                bound,
                parameters@,
                0,
            ),
            final(self).steady(old(self)),
        decreases bound.0, 1int,
    {
        let mut i: usize = 0;
        while i < parameters.len()
            invariant
                self.wf(),
                self.steady(old(self)),
                self.module.holds(bound),
                hir::defaults_below(parameters@, bound.0 as int),
                self@.resolve_defaults(*self.module, self.verbs(), bound, parameters@, i as int)
                    == old(self)@.resolve_defaults(
                    *self.module,
                    self.verbs(),
                    bound,
                    parameters@,
                    0,
                ),
            decreases parameters.len() - i,
        {
            assert(hir::opt_below(parameters@[i as int].default, bound.0 as int));
            if let Some(default) = parameters[i].default {
                self.below(bound, default);
            }
            i += 1;
        }
    }

    /// The arguments of a call, once its callee has been walked.
    fn resolve_call(&mut self, id: ExprId, callee: ExprId, arguments: &Vec<Argument>)
        requires
            old(self).wf(),
            old(self).module.holds(id),
            old(self).module.holds(callee),
            hir::values_below(arguments@, id.0 as int),
        ensures
            final(self)@ == old(self)@.resolve_call(
                *old(self).module,
                old(self).verbs(),
                id,
                callee,
                arguments@,
            ),
            final(self).steady(old(self)),
        decreases id.0, 5int,
    {
        proof {
            assert forall|i: int|
                #![trigger arguments@[i]]
                0 <= i < arguments@.len() implies hir::opt_below(
                arguments@[i].value,
                self.module.expressions@.len() as int,
            ) by {
                assert(hir::opt_below(arguments@[i].value, id.0 as int));
            }
        }
        if self.quotes_first(callee, arguments) {
            self.resolve_arguments(id, arguments, 1);
        } else if self.calls_free(callee, "on.exit") {
            let deferred = self.deferred;
            self.deferred = true;
            self.resolve_arguments(id, arguments, 0);
            self.deferred = deferred;
        } else if self.calls_free(callee, "switch") && arguments.len() > 0 {
            self.resolve_switch(id, arguments);
        } else if self.calls_free(callee, "quote") || self.calls_free(callee, "substitute")
            || self.calls_free(callee, "bquote") || self.calls_free(callee, "expression") {
            let quoted = self.quoted;
            let deferred = self.deferred;
            let quiet = self.quiet;
            self.quoted = true;
            self.deferred = true;
            self.quiet = true;
            self.resolve_arguments(id, arguments, 0);
            self.quiet = quiet;
            self.deferred = deferred;
            self.quoted = quoted;
        } else {
            match self.masking_call(callee) {
                Some(leading) => self.resolve_masked(id, arguments, &leading),
                None => self.resolve_arguments(id, arguments, 0),
            }
        }
    }

    /// The arguments of a masking call.
    fn resolve_masked(&mut self, bound: ExprId, arguments: &Vec<Argument>, leading: &Vec<String>)
        requires
            old(self).wf(),
            old(self).module.holds(bound),
            hir::values_below(arguments@, bound.0 as int),
        ensures
            ({
                let names = types::texts(leading@);
                let claimed = walk::claimed_by_name(arguments@, names, arguments@.len());
                final(self)@ == old(self)@.resolve_masked(
                    *old(self).module,
                    old(self).verbs(),
                    bound,
                    arguments@,
                    names,
                    0,
                    if claimed <= names.len() {
                        (names.len() - claimed) as nat
                    } else {
                        0
                    },
                )
            }),
            final(self).steady(old(self)),
        decreases bound.0, 1int,
    {
        let claimed: usize = claimed_by_name(arguments, leading);
        let ghost names = types::texts(leading@);
        let mut unclaimed: usize = if claimed <= leading.len() {
            leading.len() - claimed
        } else {
            0
        };
        let ghost start = unclaimed;
        let mut i: usize = 0;
        while i < arguments.len()
            invariant
                self.wf(),
                self.steady(old(self)),
                self.module.holds(bound),
                hir::values_below(arguments@, bound.0 as int),
                names == types::texts(leading@),
                self@.resolve_masked(
                    *self.module,
                    self.verbs(),
                    bound,
                    arguments@,
                    names,
                    i as int,
                    unclaimed as nat,
                ) == old(self)@.resolve_masked(
                    *self.module,
                    self.verbs(),
                    bound,
                    arguments@,
                    names,
                    0,
                    start as nat,
                ),
            decreases arguments.len() - i,
        {
            assert(hir::opt_below(arguments@[i as int].value, bound.0 as int));
            let data_argument = match &arguments[i].name {
                Some(name) => lists_name(leading, name),
                None => {
                    let takes_a_data_slot = unclaimed > 0;
                    if unclaimed > 0 {
                        unclaimed -= 1;
                    }
                    takes_a_data_slot
                },
            };
            if let Some(value) = arguments[i].value {
                if data_argument {
                    self.below(bound, value);
                } else {
                    let quiet = self.quiet;
                    self.quiet = true;
                    self.below(bound, value);
                    self.quiet = quiet;
                }
            }
            i += 1;
        }
    }

    /// `switch` as the branch it is.
    fn resolve_switch(&mut self, bound: ExprId, arguments: &Vec<Argument>)
        requires
            old(self).wf(),
            old(self).module.holds(bound),
            hir::values_below(arguments@, bound.0 as int),
        ensures
            final(self)@ == old(self)@.resolve_switch(
                *old(self).module,
                old(self).verbs(),
                bound,
                arguments@,
            ),
            final(self).steady(old(self)),
        decreases bound.0, 4int,
    {
        let subject: Option<usize> = switch_subject(arguments);
        if let Some(place) = subject {
            assert(hir::opt_below(arguments@[place as int].value, bound.0 as int));
            if let Some(value) = arguments[place].value {
                self.below(bound, value);
            }
        }
        let ghost entered = self@;
        let ghost model = walk::switch_subject(arguments@);
        let entry = self.flow.duplicate();
        let mut joined: Option<FlowState> = None;
        let mut i: usize = 0;
        while i < arguments.len()
            invariant
                i <= arguments.len(),
                self.wf(),
                self.steady(old(self)),
                self.module.holds(bound),
                hir::values_below(arguments@, bound.0 as int),
                entry@ == entered.flow,
                match subject {
                    Some(place) => model == Some(place as int),
                    None => model is None,
                },
                self@.resolve_branches(
                    *self.module,
                    self.verbs(),
                    bound,
                    arguments@,
                    model,
                    entry@,
                    i as int,
                    opt_flow(joined),
                ) == entered.resolve_branches(
                    *self.module,
                    self.verbs(),
                    bound,
                    arguments@,
                    model,
                    entry@,
                    0,
                    None,
                ),
            decreases arguments.len() - i,
        {
            assert(hir::opt_below(arguments@[i as int].value, bound.0 as int));
            let is_subject = match subject {
                Some(place) => place == i,
                None => false,
            };
            if !is_subject {
                if let Some(value) = arguments[i].value {
                    self.flow = entry.duplicate();
                    self.below(bound, value);
                    if !diverges(self.module, value) {
                        joined = match joined {
                            Some(mut state) => {
                                join_flow(&mut state, &self.flow);
                                Some(state)
                            },
                            None => Some(self.flow.duplicate()),
                        };
                    }
                }
            }
            i += 1;
        }
        self.flow = match joined {
            Some(mut state) => {
                if !has_default(arguments, subject) {
                    join_flow(&mut state, &entry);
                }
                state
            },
            None => entry,
        };
    }

    /// A loop body walked to its fixed point, then once more for its findings.
    fn loop_body(&mut self, bound: ExprId, body: ExprId, may_skip: bool)
        requires
            old(self).wf(),
            old(self).module.holds(bound),
            body.0 < bound.0,
        ensures
            final(self)@ == old(self)@.resolve_loop(
                *old(self).module,
                old(self).verbs(),
                bound,
                body,
                may_skip,
            ),
            final(self).steady(old(self)),
        decreases bound.0, 4int,
    {
        let entry = self.flow.duplicate();
        let saved_emit = self.emit;
        let mut enclosing_exits: Vec<FlowState> = Vec::new();
        std::mem::swap(&mut enclosing_exits, &mut self.loop_exits);
        self.emit = false;
        let ghost start = self@;
        assert(start =~= (WalkV { emit: false, loop_exits: Seq::empty(), ..old(self)@ }));
        let mut passes: usize = usize::MAX;
        loop
            invariant_except_break
                self.wf(),
                self.steady(old(self)),
                self.module.holds(bound),
                body.0 < bound.0,
                self@.settle(*self.module, self.verbs(), bound, body, passes as nat)
                    == start.settle(
                    *self.module,
                    self.verbs(),
                    bound,
                    body,
                    usize::MAX as nat,
                ),
            ensures
                self.wf(),
                self.steady(old(self)),
                self.module.holds(bound),
                self@ == start.settle(
                    *self.module,
                    self.verbs(),
                    bound,
                    body,
                    usize::MAX as nat,
                ),
            decreases passes,
        {
            let before = self.flow.duplicate();
            self.below(bound, body);
            join_flow(&mut self.flow, &before);
            if self.flow.same(&before) || passes == 0 {
                break ;
            }
            passes -= 1;
        }
        self.emit = saved_emit;
        let converged = self.flow.duplicate();
        let ghost settled = self@;
        self.loop_exits = Vec::new();
        assert(self@ =~= (WalkV { loop_exits: Seq::empty(), ..settled }));
        self.below(bound, body);
        let ghost last = self@;
        let mut breaks: Vec<FlowState> = enclosing_exits;
        std::mem::swap(&mut breaks, &mut self.loop_exits);
        let mut i: usize = 0;
        while i < breaks.len()
            invariant
                i <= breaks.len(),
                self.steady(old(self)),
                self@ == (WalkV { flow: self@.flow, loop_exits: old(self)@.loop_exits, ..last }),
                flows_view(breaks@) == last.loop_exits,
                walk::join_all(self@.flow, last.loop_exits, i as int) == walk::join_all(
                    last.flow,
                    last.loop_exits,
                    0,
                ),
            decreases breaks.len() - i,
        {
            assert(last.loop_exits[i as int] == breaks@[i as int]@);
            join_flow(&mut self.flow, &breaks[i]);
            i += 1;
        }
        if may_skip {
            join_flow(&mut self.flow, &entry);
        } else if breaks.len() == 0 {
            join_flow(&mut self.flow, &converged);
        }
    }

    /// The target of an assignment.
    fn resolve_assignment_target(
        &mut self,
        assignment: ExprId,
        target: ExprId,
        spelling: AssignSpelling,
    )
        requires
            old(self).wf(),
            old(self).module.holds(assignment),
            target.0 < assignment.0,
        ensures
            final(self)@ == old(self)@.resolve_target(
                *old(self).module,
                old(self).verbs(),
                assignment,
                target,
                spelling,
            ),
            final(self).steady(old(self)),
        decreases assignment.0, 5int,
    {
        if self.quoted {
            self.below(assignment, target);
            return;
        }
        let module = self.module;
        let kind = module.kind(target);
        let range = module.range(target);
        assert(kind.built_below(target.0 as int));
        match kind {
            ExpressionKind::NameRef(name) | ExpressionKind::Literal(LiteralKind::String(name)) => {
                if spelling == AssignSpelling::Super {
                    self.assign_super(assignment, target, name, range);
                } else {
                    self.assign_own(assignment, target, name, range);
                }
            },
            _ => {
                match replacement_base(module, target) {
                    Some(base) => {
                        self.resolve_replacement(assignment, target, base);
                    },
                    None => {
                        if self.emit && refuses_assignment(kind) {
                            let operand_gap: Option<TextRange> = match kind {
                                ExpressionKind::Binary { lhs, rhs, .. } => {
                                    let start: u32 = module.range(*lhs).end;
                                    let end: u32 = module.range(*rhs).start;
                                    if start <= end {
                                        Some(TextRange { start, end })
                                    } else {
                                        None
                                    }
                                },
                                _ => None,
                            };
                            self.naming.invalid_assignment_targets.push(
                                InvalidAssignmentTarget { range, operand_gap },
                            );
                        } else {
                            self.below(assignment, target);
                        }
                    },
                }
            },
        }
    }

    fn resolve_replacement(&mut self, assignment: ExprId, target: ExprId, base: ExprId)
        requires
            old(self).wf(),
            old(self).module.holds(assignment),
            target.0 < assignment.0,
            base.0 <= target.0,
            old(self).module.kind_of(base) is NameRef,
        ensures
            final(self)@ == old(self)@.resolve_replacement(
                *old(self).module,
                old(self).verbs(),
                assignment,
                target,
                base,
            ),
            final(self).steady(old(self)),
        decreases assignment.0, 4int,
    {
        let module = self.module;
        let range = module.range(base);
        self.below(assignment, base);
        if let ExpressionKind::NameRef(name) = module.kind(base) {
            let slot = self.own_or_minted(name, range);
            self.naming.resolutions.insert(base.0, slot);
            self.record_write_site(assignment, name, range, slot, false);
        }
        self.resolve_replacement_subscripts(target, base);
    }

    /// Everything in a replacement target but its base name.
    fn resolve_replacement_subscripts(&mut self, target: ExprId, base: ExprId)
        requires
            old(self).wf(),
            old(self).module.holds(target),
        ensures
            final(self)@ == old(self)@.resolve_subscripts(
                *old(self).module,
                old(self).verbs(),
                target,
                base,
            ),
            final(self).steady(old(self)),
        decreases target.0, 20int,
    {
        if target == base {
            return;
        }
        let module = self.module;
        let kind = module.kind(target);
        assert(kind.built_below(target.0 as int));
        match kind {
            ExpressionKind::Field { target: inner, .. } => {
                self.resolve_replacement_subscripts(*inner, base);
            },
            ExpressionKind::Index { target: inner, arguments, .. } => {
                self.resolve_replacement_subscripts(*inner, base);
                self.resolve_arguments(target, arguments, 0);
            },
            ExpressionKind::Call { callee, arguments } => {
                let quiet = self.quiet;
                self.quiet = true;
                self.below(target, *callee);
                self.quiet = quiet;
                if arguments.len() > 0 {
                    assert(hir::opt_below(arguments@[0].value, target.0 as int));
                    if let Some(value) = arguments[0].value {
                        self.resolve_replacement_subscripts(value, base);
                    }
                }
                self.resolve_arguments(target, arguments, 1);
            },
            _ => self.resolve(target),
        }
    }

    /// Gathers the dead stores and the parameters nothing reads.
    fn collect_unused(&mut self)
        ensures
            final(self).naming@ == old(self)@.facts(),
            old(self).naming.is_ordered() ==> final(self).naming.is_ordered(),
            old(self).naming.is_numbered() ==> final(self).naming.is_numbered(),
    {
        let mut dead: Vec<UnusedAssignment> = Vec::new();
        let mut i: usize = 0;
        while i < self.writes.len()
            invariant
                i <= self.writes.len(),
                *self == *old(self),
                unused_view(dead@) =~= walk::dead_stores(self@.writes, i as nat),
            decreases self.writes.len() - i,
        {
            let write = &self.writes[i];
            assert(self@.writes[i as int] == write@);
            let chars = chars_of(write.name.as_str());
            let held_over = chars.len() > 0 && (chars[0] == '.' || chars[0] == '_');
            if write.reportable && !write.used && !held_over {
                dead.push(UnusedAssignment { name: write.name.clone(), range: write.range });
            }
            i += 1;
        }
        let mut unread: Vec<UnusedAssignment> = Vec::new();
        let mut k: usize = 0;
        while k < self.naming.bindings.len()
            invariant
                k <= self.naming.bindings.len(),
                *self == *old(self),
                unused_view(unread@) =~= walk::unread_parameters(
                    self@.bindings,
                    self@.read_parameters,
                    k as nat,
                ),
            decreases self.naming.bindings.len() - k,
        {
            let binding = &self.naming.bindings[k];
            assert(self@.bindings[k as int] == binding@);
            if matches!(binding.kind, BindingKind::Parameter) && !same_text(
                binding.name.as_str(),
                "...",
            ) && !self.read_parameter_slots.contains(&(k as u32)) {
                unread.push(UnusedAssignment { name: binding.name.clone(), range: binding.range });
            }
            k += 1;
        }
        self.naming.unused_assignments = dead;
        self.naming.unused_parameters = unread;
    }
}

spec fn opt_flow(state: Option<FlowState>) -> Option<FlowV> {
    match state {
        Some(state) => Some(state@),
        None => None,
    }
}

/// Resolves one item.
pub fn resolve_item(module: &Module) -> (r: ItemNaming)
    requires
        module.wf(),
    ensures
        r@ == walk::naming_of(*module, Map::empty()),
        r.is_ordered(),
        forall|i: int| 0 <= i < r.bindings@.len() ==> (#[trigger] r.bindings@[i]).id.0 == i as u32,
{
    let none = fx::no_listed_texts();
    assert(fx::listed_texts(none) =~= Map::empty());
    resolve_item_with_masked_verbs(module, &none)
}

/// Resolves one item, with the verbs whose rest argument is data-masked: a call
/// to one of them evaluates the arguments its `...` absorbs in the data's frame.
/// Each verb maps to the formals before its `...`, which hold the data.
pub fn resolve_item_with_masked_verbs(
    module: &Module,
    masked_verbs: &FxHashMap<String, Vec<String>>,
) -> (r: ItemNaming)
    requires
        module.wf(),
    ensures
        r@ == walk::naming_of(*module, fx::listed_texts(*masked_verbs)),
        r.is_ordered(),
        forall|i: int| 0 <= i < r.bindings@.len() ==> (#[trigger] r.bindings@[i]).id.0 == i as u32,
{
    let mut scopes: Vec<Scope> = Vec::new();
    scopes.push(Scope::new(ScopeKind::TopLevel, 0));
    let mut context = Context {
        module,
        masked_verbs,
        bindings_by_site: fx::no_sites(),
        scopes,
        scope_ids: fx::fx_map(),
        flow: FlowState::empty(),
        writes: Vec::new(),
        write_by_expression: fx::fx_map(),
        read_parameter_slots: BTreeSet::new(),
        emit: true,
        loop_exits: Vec::new(),
        quiet: false,
        deferred: false,
        quoted: false,
        naming: ItemNaming::empty(),
    };
    assert(context@.scopes =~= walk::initial().scopes);
    assert(context@ =~= walk::initial());
    assert(sites_agree(context.bindings_by_site, context.naming.bindings@)) by {
        assert forall|site: (u32, u32, Seq<char>)| #[trigger]
            site_agrees(context.bindings_by_site, context.naming.bindings@, site) by {}
    }
    if let Some(root) = module.root {
        context.resolve(root);
    }
    context.collect_unused();
    context.naming
}

} // verus!
