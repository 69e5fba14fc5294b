//! The model of the naming walk: what each expression does to the reaching
//! writes, the scopes, and the facts gathered about an item.

use vstd::prelude::*;

use crate::flow;
use crate::flow::{FlowV, ReachV};
use crate::hir::{
    Argument, AssignSpelling, BinaryOperator, ExprId, ExpressionKind, LiteralKind, Module,
    Parameter, UnaryOperator,
};
use crate::syntax::TextRange;
use crate::types;

verus! {

/// A variable slot.
#[derive(Debug, Clone, Copy, PartialEq, Eq, PartialOrd, Ord, Hash, Structural)]
pub struct BindingId(pub u32);

/// What a slot belongs to.
#[derive(Debug, Clone, Copy, PartialEq, Eq, Structural)]
pub enum BindingKind {
    /// The item's own top-level binding, never unused.
    TopLevel,
    /// A variable slot in a function or block scope.
    Local,
    /// A function parameter's slot.
    Parameter,
    /// A `for (v in ...)` loop variable.
    ForVariable,
}

/// What opens a scope.
#[derive(Debug, Clone, Copy, PartialEq, Eq, Structural)]
pub enum ScopeKind {
    /// A function body's frame: it executes when called.
    Function,
    /// A `local({...})` block's environment: it executes immediately.
    Local,
    /// The item's top level.
    TopLevel,
}

/// An assignment target that is refused at run time.
#[derive(Debug, Clone, Copy, PartialEq, Eq, Structural)]
pub struct InvalidAssignmentTarget {
    pub range: TextRange,
    /// For a computed target, the source between its two operands.
    pub operand_gap: Option<TextRange>,
}

/// One slot; its id is its place.
pub struct BindingV {
    pub name: Seq<char>,
    pub range: TextRange,
    pub kind: BindingKind,
}

/// A scope and the slots of its names.
pub struct ScopeV {
    pub id: u32,
    pub kind: ScopeKind,
    pub slots: Seq<(Seq<char>, BindingId)>,
}

/// An assignment and whether a read reaches it.
pub struct WriteV {
    pub name: Seq<char>,
    pub range: TextRange,
    pub scope: u32,
    pub used: bool,
    pub reportable: bool,
}

/// A qualified read.
pub struct NamespaceReadV {
    pub internal: bool,
    pub package: Seq<char>,
    pub name: Option<Seq<char>>,
}

/// The verbs whose rest argument is data-masked, with the formals that hold the
/// data.
pub type VerbsV = Map<Seq<char>, Seq<Seq<char>>>;

/// Everything the walk carries.
#[verifier::ext_equal]
pub struct WalkV {
    pub bindings: Seq<BindingV>,
    pub resolutions: Map<u32, BindingId>,
    pub maybe_undefined: Set<u32>,
    pub non_locals: Map<u32, Seq<char>>,
    pub deferred_non_locals: Set<u32>,
    pub quiet_reads: Map<u32, Seq<char>>,
    pub deferred_quiet_reads: Set<u32>,
    pub quiet_operator_reads: Set<Seq<char>>,
    pub used_top_level_names: Set<Seq<char>>,
    pub captured_slots: Set<u32>,
    pub masked_subsets: Set<u32>,
    pub namespace_reads: Map<u32, NamespaceReadV>,
    pub super_globals: Set<Seq<char>>,
    pub invalid_targets: Seq<InvalidAssignmentTarget>,
    pub scopes: Seq<ScopeV>,
    /// The identity of the frame each expression opens, by order of first visit.
    pub scope_ids: Map<u32, u32>,
    pub flow: FlowV,
    /// The state at each `break` of the loop being walked.
    pub loop_exits: Seq<FlowV>,
    pub writes: Seq<WriteV>,
    pub write_sites: Map<u32, u32>,
    pub read_parameters: Set<u32>,
    /// Whether findings are recorded: off on the passes of a loop that only
    /// look for its fixed point.
    pub emit: bool,
    /// Inside a construct whose unresolved names are not findings.
    pub quiet: bool,
    /// Inside an expression that is evaluated later than its line.
    pub deferred: bool,
    /// Inside an expression that is never evaluated where it stands.
    pub quoted: bool,
}

/// The state an item's walk starts in.
pub open spec fn initial() -> WalkV {
    WalkV {
        bindings: Seq::empty(),
        resolutions: Map::empty(),
        maybe_undefined: Set::empty(),
        non_locals: Map::empty(),
        deferred_non_locals: Set::empty(),
        quiet_reads: Map::empty(),
        deferred_quiet_reads: Set::empty(),
        quiet_operator_reads: Set::empty(),
        used_top_level_names: Set::empty(),
        captured_slots: Set::empty(),
        masked_subsets: Set::empty(),
        namespace_reads: Map::empty(),
        super_globals: Set::empty(),
        invalid_targets: Seq::empty(),
        scopes: seq![ScopeV { id: 0, kind: ScopeKind::TopLevel, slots: Seq::empty() }],
        scope_ids: Map::empty(),
        flow: Map::empty(),
        loop_exits: Seq::empty(),
        writes: Seq::empty(),
        write_sites: Map::empty(),
        read_parameters: Set::empty(),
        emit: true,
        quiet: false,
        deferred: false,
        quoted: false,
    }
}

/// The slot a name has in a scope: the last one it was given.
pub open spec fn slot_in(slots: Seq<(Seq<char>, BindingId)>, name: Seq<char>) -> Option<BindingId>
    decreases slots.len(),
{
    if slots.len() == 0 {
        None
    } else if slots.last().0 == name {
        Some(slots.last().1)
    } else {
        slot_in(slots.drop_last(), name)
    }
}

/// The binding already minted at a site.
pub open spec fn binding_at(
    bindings: Seq<BindingV>,
    name: Seq<char>,
    range: TextRange,
    from: int,
) -> Option<int>
    decreases bindings.len() - from,
{
    if 0 <= from < bindings.len() {
        if bindings[from].name == name && bindings[from].range == range {
            Some(from)
        } else {
            binding_at(bindings, name, range, from + 1)
        }
    } else {
        None
    }
}

/// The innermost function frame among the first `upto` scopes; the outermost
/// scope where there is none.
pub open spec fn function_depth(scopes: Seq<ScopeV>, upto: nat) -> nat
    decreases upto,
{
    if upto == 0 {
        0
    } else if scopes[upto - 1].kind == ScopeKind::Function {
        (upto - 1) as nat
    } else {
        function_depth(scopes, (upto - 1) as nat)
    }
}

/// Names that stand for rest arguments: `...`, `..1` and so on.
pub open spec fn is_dots(name: Seq<char>) -> bool {
    ||| name == seq!['.', '.', '.']
    ||| name.len() >= 2 && name[0] == '.' && name[1] == '.' && forall|i: int|
        2 <= i < name.len() ==> '0' <= #[trigger] name[i] <= '9'
}

/// The base data-masking verbs and the formal that holds their data.
pub open spec fn base_masking(name: Seq<char>) -> Option<Seq<Seq<char>>> {
    if name == "with"@ || name == "within"@ {
        Some(seq!["data"@])
    } else if name == "subset"@ || name == "transform"@ {
        Some(seq!["x"@])
    } else {
        None
    }
}

/// The data formals of a declared masking verb.
pub open spec fn declared_masking(verbs: VerbsV, name: Seq<char>) -> Option<Seq<Seq<char>>> {
    if verbs.dom().contains(name) {
        Some(verbs[name])
    } else {
        None
    }
}

pub open spec fn masking(verbs: VerbsV, name: Seq<char>) -> Option<Seq<Seq<char>>> {
    match base_masking(name) {
        Some(leading) => Some(leading),
        None => declared_masking(verbs, name),
    }
}

/// How many of the first `upto` arguments name a data formal.
pub open spec fn claimed_by_name(
    arguments: Seq<Argument>,
    leading: Seq<Seq<char>>,
    upto: nat,
) -> nat
    decreases upto,
{
    if upto == 0 {
        0
    } else {
        claimed_by_name(arguments, leading, (upto - 1) as nat) + match arguments[upto - 1].name {
            Some(name) => if leading.contains(name@) {
                1nat
            } else {
                0nat
            },
            None => 0nat,
        }
    }
}

/// Whether control never falls through an expression.
pub open spec fn diverges(m: Module, id: ExprId) -> bool
    decreases id.0,
{
    match m.kind_of(id) {
        ExpressionKind::Break => true,
        ExpressionKind::Next => true,
        ExpressionKind::Call { callee, .. } => m.name_of(callee) == Some("return"@) || m.name_of(
            callee,
        ) == Some("stop"@),
        ExpressionKind::Block { statements, .. } => statements@.len() > 0 && statements@.last().0
            < id.0 && diverges(m, statements@.last()),
        ExpressionKind::If { then_branch, else_branch, .. } => match else_branch {
            Some(else_branch) => then_branch.0 < id.0 && else_branch.0 < id.0 && diverges(
                m,
                then_branch,
            ) && diverges(m, else_branch),
            None => false,
        },
        ExpressionKind::Paren(inner) => inner.0 < id.0 && diverges(m, inner),
        _ => false,
    }
}

/// The specials that only a data.table bracket evaluates.
pub open spec fn is_table_special(name: Seq<char>) -> bool {
    name == ".SD"@ || name == ".N"@ || name == ".I"@ || name == ".BY"@ || name == ".GRP"@ || name
        == ".EACHI"@
}

/// Whether an expression carries data.table syntax outside nested functions.
pub open spec fn table_marker(m: Module, id: ExprId) -> bool
    decreases id.0, 1int, 0int,
{
    match m.kind_of(id) {
        ExpressionKind::NameRef(name) => is_table_special(name@),
        ExpressionKind::Function { .. } => false,
        ExpressionKind::Call { callee, .. } => m.name_of(callee) == Some(":="@) || m.name_of(callee)
            == Some("."@) || any_table_marker(m, id, m.kind_of(id).children(), 0),
        _ => any_table_marker(m, id, m.kind_of(id).children(), 0),
    }
}

pub open spec fn any_table_marker(m: Module, bound: ExprId, ids: Seq<ExprId>, from: int) -> bool
    decreases bound.0, 0int, ids.len() - from,
{
    if 0 <= from < ids.len() {
        (ids[from].0 < bound.0 && table_marker(m, ids[from])) || any_table_marker(
            m,
            bound,
            ids,
            from + 1,
        )
    } else {
        false
    }
}

/// Whether a `[` carries an unambiguous data.table signature.
pub open spec fn table_signature(m: Module, arguments: Seq<Argument>, from: int) -> bool
    decreases arguments.len() - from,
{
    if 0 <= from < arguments.len() {
        ||| match arguments[from].name {
            Some(name) => name@ == "by"@ || name@ == "keyby"@,
            None => false,
        }
        ||| match arguments[from].value {
            Some(value) => table_marker(m, value),
            None => false,
        }
        ||| table_signature(m, arguments, from + 1)
    } else {
        false
    }
}

/// The name at the bottom of a replacement target.
pub open spec fn replacement_base(m: Module, target: ExprId) -> Option<ExprId>
    decreases target.0,
{
    match m.kind_of(target) {
        ExpressionKind::NameRef(_) => Some(target),
        ExpressionKind::Field { target: inner, .. } => if inner.0 < target.0 {
            replacement_base(m, inner)
        } else {
            None
        },
        ExpressionKind::Index { target: inner, .. } => if inner.0 < target.0 {
            replacement_base(m, inner)
        } else {
            None
        },
        ExpressionKind::Call { arguments, .. } => if arguments@.len() > 0 {
            match arguments@[0].value {
                Some(value) => if value.0 < target.0 {
                    replacement_base(m, value)
                } else {
                    None
                },
                None => None,
            }
        } else {
            None
        },
        _ => None,
    }
}

/// Whether a target of this shape is certainly refused: a computed value, or a
/// literal that is not a string.
pub open spec fn refuses_assignment(kind: ExpressionKind) -> bool {
    match kind {
        ExpressionKind::Binary { .. } => true,
        ExpressionKind::Unary { operator, .. } => operator != UnaryOperator::Not,
        ExpressionKind::Literal(literal) => literal !is String,
        _ => false,
    }
}

/// The name a target binds: a bare name, or a string where a name belongs.
pub open spec fn target_name(m: Module, target: ExprId) -> Option<Seq<char>> {
    match m.kind_of(target) {
        ExpressionKind::NameRef(name) => Some(name@),
        ExpressionKind::Literal(LiteralKind::String(name)) => Some(name@),
        _ => None,
    }
}

/// Whether the expression at a place binds a name: as a parameter, as a loop
/// variable, or as what an assignment writes.
pub open spec fn binds_name(m: Module, i: int, name: Seq<char>) -> bool {
    match m.expressions@[i].kind {
        ExpressionKind::Function { parameters, .. } => exists|k: int|
            0 <= k < parameters@.len() && (#[trigger] parameters@[k]).name@ == name,
        ExpressionKind::For { variable, .. } => types::opt_text(variable) == Some(name),
        ExpressionKind::Assign { target, .. } => target_name(m, target) == Some(name)
            || match replacement_base(m, target) {
            Some(base) => m.name_of(base) == Some(name),
            None => false,
        },
        _ => false,
    }
}

/// Whether an item binds a name anywhere.
pub open spec fn item_binds(m: Module, name: Seq<char>) -> bool {
    exists|i: int| 0 <= i < m.expressions@.len() && #[trigger] binds_name(m, i, name)
}

/// Whether a call is to the given name, which the item binds nowhere.
pub open spec fn calls_unbound(m: Module, callee: ExprId, name: Seq<char>) -> bool {
    m.name_of(callee) == Some(name) && !item_binds(m, name)
}

/// Whether a call certainly builds an expression instead of running it: it is
/// to a quoting form that nothing in the item can stand for.
pub open spec fn builds_expression(m: Module, callee: ExprId) -> bool {
    calls_unbound(m, callee, "quote"@) || calls_unbound(m, callee, "substitute"@) || calls_unbound(
        m,
        callee,
        "bquote"@,
    ) || calls_unbound(m, callee, "expression"@)
}

/// The source between the operands of a computed target.
pub open spec fn operand_gap(m: Module, target: ExprId) -> Option<TextRange> {
    match m.kind_of(target) {
        ExpressionKind::Binary { lhs, rhs, .. } => {
            let start = m.range_of(lhs).end;
            let end = m.range_of(rhs).start;
            if start <= end {
                Some(TextRange { start, end })
            } else {
                None
            }
        },
        _ => None,
    }
}

/// The first argument with the given name.
pub open spec fn argument_named(arguments: Seq<Argument>, name: Seq<char>, from: int) -> Option<int>
    decreases arguments.len() - from,
{
    if 0 <= from < arguments.len() {
        if types::opt_text(arguments[from].name) == Some(name) {
            Some(from)
        } else {
            argument_named(arguments, name, from + 1)
        }
    } else {
        None
    }
}

/// The first argument without a name.
pub open spec fn argument_unnamed(arguments: Seq<Argument>, from: int) -> Option<int>
    decreases arguments.len() - from,
{
    if 0 <= from < arguments.len() {
        if arguments[from].name is None {
            Some(from)
        } else {
            argument_unnamed(arguments, from + 1)
        }
    } else {
        None
    }
}

/// The subject of a `switch`: `EXPR`, or the first argument without a name.
pub open spec fn switch_subject(arguments: Seq<Argument>) -> Option<int> {
    match argument_named(arguments, "EXPR"@, 0) {
        Some(i) => Some(i),
        None => argument_unnamed(arguments, 0),
    }
}

/// How many of the first `upto` alternatives of a `switch` are named.
pub open spec fn named_alternatives(
    arguments: Seq<Argument>,
    subject: Option<int>,
    upto: nat,
) -> nat
    decreases upto,
{
    if upto == 0 {
        0
    } else {
        let i = upto - 1;
        named_alternatives(arguments, subject, i as nat) + if subject != Some(i)
            && arguments[i].name is Some {
            1nat
        } else {
            0nat
        }
    }
}

/// How many of the first `upto` alternatives of a `switch` are bodies without a
/// name.
pub open spec fn unnamed_bodies(arguments: Seq<Argument>, subject: Option<int>, upto: nat) -> nat
    decreases upto,
{
    if upto == 0 {
        0
    } else {
        let i = upto - 1;
        unnamed_bodies(arguments, subject, i as nat) + if subject != Some(i)
            && arguments[i].name is None && arguments[i].value is Some {
            1nat
        } else {
            0nat
        }
    }
}

/// A `switch` has a default where exactly one body stands without a name beside
/// named ones.
pub open spec fn has_default(arguments: Seq<Argument>) -> bool {
    let subject = switch_subject(arguments);
    named_alternatives(arguments, subject, arguments.len()) > 0 && unnamed_bodies(
        arguments,
        subject,
        arguments.len(),
    ) == 1
}

/// Several states joined into one, in order.
pub open spec fn join_all(state: FlowV, others: Seq<FlowV>, from: int) -> FlowV
    decreases others.len() - from,
{
    if 0 <= from < others.len() {
        join_all(flow::joined(state, others[from]), others, from + 1)
    } else {
        state
    }
}

/// An unused name: a dead store, or a parameter nothing reads.
pub struct UnusedV {
    pub name: Seq<char>,
    pub range: TextRange,
}

/// Whether a write is reported as a dead store: names with a leading `.` or `_`
/// are held over on purpose.
pub open spec fn is_dead_store(write: WriteV) -> bool {
    write.reportable && !write.used && !(write.name.len() > 0 && (write.name[0] == '.'
        || write.name[0] == '_'))
}

/// The dead stores among the first `upto` writes.
pub open spec fn dead_stores(writes: Seq<WriteV>, upto: nat) -> Seq<UnusedV>
    decreases upto,
{
    if upto == 0 {
        Seq::empty()
    } else {
        let before = dead_stores(writes, (upto - 1) as nat);
        let write = writes[upto - 1];
        if is_dead_store(write) {
            before.push(UnusedV { name: write.name, range: write.range })
        } else {
            before
        }
    }
}

/// The parameters nothing reads among the first `upto` bindings.
pub open spec fn unread_parameters(bindings: Seq<BindingV>, read: Set<u32>, upto: nat) -> Seq<
    UnusedV,
>
    decreases upto,
{
    if upto == 0 {
        Seq::empty()
    } else {
        let before = unread_parameters(bindings, read, (upto - 1) as nat);
        let binding = bindings[upto - 1];
        if binding.kind == BindingKind::Parameter && binding.name != "..."@ && !read.contains(
            (upto - 1) as u32,
        ) {
            before.push(UnusedV { name: binding.name, range: binding.range })
        } else {
            before
        }
    }
}

/// The naming facts of an item.
#[verifier::ext_equal]
pub struct NamingV {
    pub bindings: Seq<BindingV>,
    pub resolutions: Map<u32, BindingId>,
    pub maybe_undefined: Set<u32>,
    pub non_locals: Map<u32, Seq<char>>,
    pub deferred_non_locals: Set<u32>,
    pub quiet_reads: Map<u32, Seq<char>>,
    pub deferred_quiet_reads: Set<u32>,
    pub quiet_operator_reads: Set<Seq<char>>,
    pub unused_assignments: Seq<UnusedV>,
    pub unused_parameters: Seq<UnusedV>,
    pub used_top_level_names: Set<Seq<char>>,
    pub captured_slots: Set<u32>,
    pub masked_subsets: Set<u32>,
    pub namespace_reads: Map<u32, NamespaceReadV>,
    pub super_globals: Set<Seq<char>>,
    pub invalid_targets: Seq<InvalidAssignmentTarget>,
}

/// The naming facts of a module: what the walk of its root gathers.
pub open spec fn naming_of(m: Module, verbs: VerbsV) -> NamingV {
    match m.root {
        Some(root) => initial().resolve(m, verbs, root).facts(),
        None => initial().facts(),
    }
}

impl WalkV {
    /// What the walk has gathered.
    pub open spec fn facts(self) -> NamingV {
        NamingV {
            bindings: self.bindings,
            resolutions: self.resolutions,
            maybe_undefined: self.maybe_undefined,
            non_locals: self.non_locals,
            deferred_non_locals: self.deferred_non_locals,
            quiet_reads: self.quiet_reads,
            deferred_quiet_reads: self.deferred_quiet_reads,
            quiet_operator_reads: self.quiet_operator_reads,
            unused_assignments: dead_stores(self.writes, self.writes.len()),
            unused_parameters: unread_parameters(
                self.bindings,
                self.read_parameters,
                self.bindings.len(),
            ),
            used_top_level_names: self.used_top_level_names,
            captured_slots: self.captured_slots,
            masked_subsets: self.masked_subsets,
            namespace_reads: self.namespace_reads,
            super_globals: self.super_globals,
            invalid_targets: self.invalid_targets,
        }
    }

    pub open spec fn depth(self) -> nat {
        function_depth(self.scopes, self.scopes.len())
    }

    /// The binding of a site: the one it has, or a new one.
    pub open spec fn mint(self, name: Seq<char>, range: TextRange, kind: BindingKind) -> (
        WalkV,
        BindingId,
    ) {
        match binding_at(self.bindings, name, range, 0) {
            Some(i) => (self, BindingId(i as u32)),
            None => (
                WalkV { bindings: self.bindings.push(BindingV { name, range, kind }), ..self },
                BindingId(self.bindings.len() as u32),
            ),
        }
    }

    /// Gives a name its slot in the innermost scope.
    pub open spec fn bind(self, name: Seq<char>, slot: BindingId) -> WalkV {
        let top = self.scopes.len() - 1;
        WalkV {
            scopes: self.scopes.update(
                top,
                ScopeV { slots: self.scopes[top].slots.push((name, slot)), ..self.scopes[top] },
            ),
            ..self
        }
    }

    pub open spec fn own_slot(self, name: Seq<char>) -> Option<BindingId> {
        slot_in(self.scopes[self.scopes.len() - 1].slots, name)
    }

    /// The identity of the frame an expression opens.
    pub open spec fn frame_id(self, site: ExprId) -> (WalkV, u32) {
        if self.scope_ids.dom().contains(site.0) {
            (self, self.scope_ids[site.0])
        } else {
            let fresh = (self.scope_ids.dom().len() + 1) as u32;
            (WalkV { scope_ids: self.scope_ids.insert(site.0, fresh), ..self }, fresh)
        }
    }

    pub open spec fn enter(self, kind: ScopeKind, id: u32) -> WalkV {
        WalkV {
            scopes: self.scopes.push(ScopeV { id, kind, slots: Seq::empty() }),
            ..self
        }
    }

    pub open spec fn leave(self) -> WalkV {
        WalkV { scopes: self.scopes.drop_last(), ..self }
    }

    pub open spec fn written(self, slot: BindingId, reach: ReachV) -> WalkV {
        WalkV { flow: self.flow.insert(slot.0, reach), ..self }
    }

    /// The slot a read sees among the first `upto` scopes, innermost first: one
    /// that a write can reach, or one of an enclosing frame.
    pub open spec fn visible_slot(self, name: Seq<char>, upto: nat) -> Option<(nat, BindingId)>
        decreases upto,
    {
        if upto == 0 {
            None
        } else {
            let depth = (upto - 1) as nat;
            match slot_in(self.scopes[depth as int].slots, name) {
                Some(slot) if self.flow.dom().contains(slot.0) || depth < self.depth() => Some(
                    (depth, slot),
                ),
                _ => self.visible_slot(name, depth),
            }
        }
    }

    /// The writes with those that reach a slot marked used.
    pub open spec fn reached_writes(self, reach: ReachV) -> Seq<WriteV> {
        Seq::new(
            self.writes.len(),
            |i: int|
                WriteV {
                    used: self.writes[i].used || (i <= u32::MAX && reach.assignments.contains(
                        i as u32,
                    )),
                    ..self.writes[i]
                },
        )
    }

    /// The table with every write of a name in one frame marked used.
    pub open spec fn frame_used(self, frame: u32, name: Seq<char>) -> WalkV {
        WalkV {
            writes: Seq::new(
                self.writes.len(),
                |i: int|
                    WriteV {
                        used: self.writes[i].used || (self.writes[i].scope == frame
                            && self.writes[i].name == name),
                        ..self.writes[i]
                    },
            ),
            ..self
        }
    }

    /// Marks a binding of its kind as read.
    pub open spec fn kind_read(self, slot: BindingId, name: Seq<char>) -> WalkV {
        if slot.0 < self.bindings.len() {
            match self.bindings[slot.0 as int].kind {
                BindingKind::Parameter => WalkV {
                    read_parameters: self.read_parameters.insert(slot.0),
                    ..self
                },
                BindingKind::TopLevel => WalkV {
                    used_top_level_names: self.used_top_level_names.insert(name),
                    ..self
                },
                _ => self,
            }
        } else {
            self
        }
    }

    /// The slot half of a read: the slot, and whether a path without a write
    /// reaches it. Every write that reaches is used; a read from a nested
    /// function, or one evaluated later, keeps every write of its frame.
    pub open spec fn slot_read(self, name: Seq<char>) -> (WalkV, Option<(BindingId, bool)>) {
        match self.visible_slot(name, self.scopes.len()) {
            None => (self, None),
            Some((depth, slot)) => {
                let marked = self.kind_read(slot, name);
                let (reached, maybe) = if self.flow.dom().contains(slot.0) {
                    (
                        WalkV { writes: self.reached_writes(self.flow[slot.0]), ..marked },
                        self.flow[slot.0].unassigned,
                    )
                } else {
                    (marked, false)
                };
                let kept = if depth < self.depth() || self.deferred {
                    WalkV {
                        captured_slots: reached.captured_slots.insert(slot.0),
                        ..reached.frame_used(self.scopes[depth as int].id, name)
                    }
                } else {
                    reached
                };
                (kept, Some((slot, maybe)))
            },
        }
    }

    /// A read of a name.
    pub open spec fn read(self, id: ExprId, name: Seq<char>) -> WalkV {
        if is_dots(name) {
            self
        } else {
            let (after, found) = self.slot_read(name);
            match found {
                Some((slot, maybe)) => WalkV {
                    resolutions: after.resolutions.insert(id.0, slot),
                    maybe_undefined: if maybe && after.emit {
                        after.maybe_undefined.insert(id.0)
                    } else {
                        after.maybe_undefined
                    },
                    ..after
                },
                None => if !after.emit {
                    after
                } else if !after.quiet {
                    WalkV {
                        non_locals: after.non_locals.insert(id.0, name),
                        deferred_non_locals: if after.depth() > 0 {
                            after.deferred_non_locals.insert(id.0)
                        } else {
                            after.deferred_non_locals
                        },
                        ..after
                    }
                } else {
                    WalkV {
                        quiet_reads: after.quiet_reads.insert(id.0, name),
                        deferred_quiet_reads: if after.depth() > 0 {
                            after.deferred_quiet_reads.insert(id.0)
                        } else {
                            after.deferred_quiet_reads
                        },
                        ..after
                    }
                },
            }
        }
    }

    /// The frame that owns a slot under a name, innermost first; the current one
    /// where none does.
    pub open spec fn owner_of(self, name: Seq<char>, slot: BindingId, upto: nat) -> u32
        decreases upto,
    {
        if upto == 0 {
            self.scopes[self.scopes.len() - 1].id
        } else if slot_in(self.scopes[upto - 1].slots, name) == Some(slot) {
            self.scopes[upto - 1].id
        } else {
            self.owner_of(name, slot, (upto - 1) as nat)
        }
    }

    /// A write at an assignment: one write per assignment, used from the start
    /// where its slot is captured.
    pub open spec fn write_at(
        self,
        assignment: ExprId,
        name: Seq<char>,
        range: TextRange,
        slot: BindingId,
        reportable: bool,
    ) -> WalkV {
        let (known, index) = if self.write_sites.dom().contains(assignment.0) {
            (self, self.write_sites[assignment.0])
        } else {
            (
                WalkV {
                    writes: self.writes.push(
                        WriteV {
                            name,
                            range,
                            scope: self.owner_of(name, slot, self.scopes.len()),
                            used: false,
                            reportable,
                        },
                    ),
                    write_sites: self.write_sites.insert(
                        assignment.0,
                        self.writes.len() as u32,
                    ),
                    ..self
                },
                self.writes.len() as u32,
            )
        };
        let kept = if known.captured_slots.contains(slot.0) && index < known.writes.len() {
            WalkV {
                writes: known.writes.update(
                    index as int,
                    WriteV { used: true, ..known.writes[index as int] },
                ),
                ..known
            }
        } else {
            known
        };
        kept.written(slot, ReachV::of_write(index))
    }

    /// The kind of a variable bound in the innermost scope.
    pub open spec fn own_kind(self) -> BindingKind {
        if self.scopes[self.scopes.len() - 1].kind == ScopeKind::TopLevel {
            BindingKind::TopLevel
        } else {
            BindingKind::Local
        }
    }

    /// The slot of a name in the innermost scope, minted where it has none.
    pub open spec fn own_or_minted(self, name: Seq<char>, range: TextRange) -> (WalkV, BindingId) {
        match self.own_slot(name) {
            Some(slot) => (self, slot),
            None => {
                let (minted, slot) = self.mint(name, range, self.own_kind());
                (minted.bind(name, slot), slot)
            },
        }
    }

    /// An assignment to a name in the innermost scope.
    pub open spec fn assign_own(
        self,
        assignment: ExprId,
        target: ExprId,
        name: Seq<char>,
        range: TextRange,
    ) -> WalkV {
        let reportable = self.own_kind() == BindingKind::Local;
        let (ready, slot) = self.own_or_minted(name, range);
        WalkV { resolutions: ready.resolutions.insert(target.0, slot), ..ready }.write_at(
            assignment,
            name,
            range,
            slot,
            reportable,
        )
    }

    /// The nearest slot of a name among the first `upto` scopes.
    pub open spec fn enclosing_slot(self, name: Seq<char>, upto: nat) -> Option<(nat, BindingId)>
        decreases upto,
    {
        if upto == 0 {
            None
        } else {
            match slot_in(self.scopes[upto - 1].slots, name) {
                Some(slot) => Some(((upto - 1) as nat, slot)),
                None => self.enclosing_slot(name, (upto - 1) as nat),
            }
        }
    }

    /// A `<<-` assignment: to the nearest slot of a strictly enclosing scope,
    /// whose frame's writes stay alive; to the global environment where there is
    /// none.
    pub open spec fn assign_super(
        self,
        assignment: ExprId,
        target: ExprId,
        name: Seq<char>,
        range: TextRange,
    ) -> WalkV {
        match self.enclosing_slot(name, (self.scopes.len() - 1) as nat) {
            Some((depth, slot)) => WalkV {
                resolutions: self.resolutions.insert(target.0, slot),
                captured_slots: self.captured_slots.insert(slot.0),
                ..self.frame_used(self.scopes[depth as int].id, name)
            }.write_at(assignment, name, range, slot, true),
            None => if self.emit {
                WalkV {
                    non_locals: self.non_locals.insert(target.0, name),
                    super_globals: self.super_globals.insert(name),
                    ..self
                }
            } else {
                self
            },
        }
    }

    /// Binds parameters from one on.
    pub open spec fn with_parameters(self, parameters: Seq<Parameter>, from: int) -> WalkV
        decreases parameters.len() - from,
    {
        if 0 <= from < parameters.len() {
            let parameter = parameters[from];
            let (minted, slot) = self.mint(
                parameter.name@,
                parameter.range,
                BindingKind::Parameter,
            );
            minted.bind(parameter.name@, slot).written(
                slot,
                ReachV::of_implicit(),
            ).with_parameters(parameters, from + 1)
        } else {
            self
        }
    }

    /// Gives a name a slot in the innermost scope where it has none.
    pub open spec fn preminted(self, name: Seq<char>, range: TextRange, kind: BindingKind) -> WalkV {
        match self.own_slot(name) {
            Some(_) => self,
            None => {
                let (minted, slot) = self.mint(name, range, kind);
                minted.bind(name, slot)
            },
        }
    }

    /// Gives a slot to every name that a frame's body assigns, so a closure
    /// defined earlier in the frame can see a name written later. Code that is
    /// only built assigns nothing.
    pub open spec fn premint(self, m: Module, id: ExprId) -> WalkV
        decreases id.0, 1int, 0int,
    {
        match m.kind_of(id) {
            ExpressionKind::Function { .. } => self,
            ExpressionKind::Local { .. } => self,
            ExpressionKind::Assign { spelling, target, value } => {
                let ready = if spelling != AssignSpelling::Super {
                    match target_name(m, target) {
                        Some(name) => self.preminted(
                            name,
                            m.range_of(target),
                            BindingKind::Local,
                        ),
                        None => self,
                    }
                } else {
                    self
                };
                if value.0 < id.0 {
                    ready.premint(m, value)
                } else {
                    ready
                }
            },
            ExpressionKind::For { variable, variable_range, sequence, body } => {
                let ready = match (variable, variable_range) {
                    (Some(variable), Some(range)) => self.preminted(
                        variable@,
                        range,
                        BindingKind::ForVariable,
                    ),
                    _ => self,
                };
                ready.premint_all(m, id, seq![sequence, body], 0)
            },
            ExpressionKind::Call { callee, .. } => if builds_expression(m, callee) {
                self
            } else {
                self.premint_all(m, id, m.kind_of(id).children(), 0)
            },
            _ => self.premint_all(m, id, m.kind_of(id).children(), 0),
        }
    }

    pub open spec fn premint_all(self, m: Module, bound: ExprId, ids: Seq<ExprId>, from: int) -> WalkV
        decreases bound.0, 0int, ids.len() - from,
    {
        if 0 <= from < ids.len() {
            if ids[from].0 < bound.0 {
                self.premint(m, ids[from]).premint_all(m, bound, ids, from + 1)
            } else {
                self.premint_all(m, bound, ids, from + 1)
            }
        } else {
            self
        }
    }

    pub open spec fn with_quiet(self, quiet: bool) -> WalkV {
        WalkV { quiet, ..self }
    }

    /// The walk of one expression.
    pub open spec fn resolve(self, m: Module, verbs: VerbsV, id: ExprId) -> WalkV
        decreases id.0, 10int, 0int,
    {
        match m.kind_of(id) {
            ExpressionKind::Missing => self,
            ExpressionKind::Next => self,
            ExpressionKind::Literal(_) => self,
            ExpressionKind::Break => WalkV { loop_exits: self.loop_exits.push(self.flow), ..self },
            ExpressionKind::NameRef(name) => self.read(id, name@),
            ExpressionKind::Assign { spelling, target, value } => self.resolve_assign(
                m,
                verbs,
                id,
                spelling,
                target,
                value,
            ),
            ExpressionKind::Unary { operator, operand } => if operator != UnaryOperator::Tilde
                && operator != UnaryOperator::Help {
                self.below(m, verbs, id, operand)
            } else {
                self
            },
            ExpressionKind::Binary { operator, special_name, lhs, rhs } => self.resolve_binary(
                m,
                verbs,
                id,
                operator,
                types::opt_text(special_name),
                lhs,
                rhs,
            ),
            ExpressionKind::Call { callee, arguments } => self.below(
                m,
                verbs,
                id,
                callee,
            ).resolve_call(m, verbs, id, callee, arguments@),
            ExpressionKind::Index { double, target, arguments } => self.resolve_index(
                m,
                verbs,
                id,
                double,
                target,
                arguments@,
            ),
            ExpressionKind::Field { target, .. } => self.below(m, verbs, id, target),
            ExpressionKind::Namespace { internal, package, name } => self.namespace_read(
                id,
                internal,
                types::opt_text(package),
                types::opt_text(name),
            ),
            ExpressionKind::Function { parameters, body } => self.resolve_function(
                m,
                verbs,
                id,
                parameters@,
                body,
            ),
            ExpressionKind::If { condition, then_branch, else_branch } => self.resolve_if(
                m,
                verbs,
                id,
                condition,
                then_branch,
                else_branch,
            ),
            ExpressionKind::For { variable, variable_range, sequence, body } => self.below(
                m,
                verbs,
                id,
                sequence,
            ).loop_variable(types::opt_text(variable), variable_range).resolve_loop(
                m,
                verbs,
                id,
                body,
                true,
            ),
            ExpressionKind::While { condition, body } => self.below(
                m,
                verbs,
                id,
                condition,
            ).resolve_loop(m, verbs, id, body, true),
            ExpressionKind::Repeat { body } => self.resolve_loop(m, verbs, id, body, false),
            ExpressionKind::Local { body } => self.resolve_local(m, verbs, id, body),
            ExpressionKind::Block { statements, .. } => self.resolve_all(
                m,
                verbs,
                id,
                statements@,
                0,
            ),
            ExpressionKind::Paren(inner) => self.below(m, verbs, id, inner),
        }
    }

    /// A qualified read.
    pub open spec fn namespace_read(
        self,
        id: ExprId,
        internal: bool,
        package: Option<Seq<char>>,
        name: Option<Seq<char>>,
    ) -> WalkV {
        match package {
            Some(package) => if self.emit && !self.quiet {
                WalkV {
                    namespace_reads: self.namespace_reads.insert(
                        id.0,
                        NamespaceReadV { internal, package, name },
                    ),
                    ..self
                }
            } else {
                self
            },
            None => self,
        }
    }

    /// The binding of a `for` loop's variable.
    pub open spec fn loop_variable(
        self,
        variable: Option<Seq<char>>,
        range: Option<TextRange>,
    ) -> WalkV {
        match (variable, range) {
            (Some(variable), Some(range)) => {
                let (minted, slot) = self.mint(variable, range, BindingKind::ForVariable);
                minted.bind(variable, slot).written(slot, ReachV::of_implicit())
            },
            _ => self,
        }
    }

    /// An assignment: the value first where the target is a bare name; a
    /// replacement target binds before its value is walked.
    pub open spec fn resolve_assign(
        self,
        m: Module,
        verbs: VerbsV,
        id: ExprId,
        spelling: AssignSpelling,
        target: ExprId,
        value: ExprId,
    ) -> WalkV
        decreases id.0, 9int, 0int,
    {
        if m.name_of(target) is Some {
            self.below(m, verbs, id, value).resolve_target(m, verbs, id, target, spelling)
        } else {
            self.resolve_target(m, verbs, id, target, spelling).below(m, verbs, id, value)
        }
    }

    /// A binary operator: `%op%` reads its own name, a formula quotes its
    /// operands, and those of an operator that is not modelled are quiet.
    pub open spec fn resolve_binary(
        self,
        m: Module,
        verbs: VerbsV,
        id: ExprId,
        operator: BinaryOperator,
        special_name: Option<Seq<char>>,
        lhs: ExprId,
        rhs: ExprId,
    ) -> WalkV
        decreases id.0, 9int, 0int,
    {
        let ready = match special_name {
            Some(name) => WalkV {
                quiet_operator_reads: self.quiet_operator_reads.insert(name),
                ..self
            }.slot_read(name).0,
            None => self,
        };
        match operator {
            BinaryOperator::Tilde => ready,
            BinaryOperator::Help => ready,
            BinaryOperator::And | BinaryOperator::Or | BinaryOperator::Pipe
            | BinaryOperator::Special => ready.with_quiet(true).below(m, verbs, id, lhs).below(
                m,
                verbs,
                id,
                rhs,
            ).with_quiet(self.quiet),
            _ => ready.below(m, verbs, id, lhs).below(m, verbs, id, rhs),
        }
    }

    /// An index: a `[` with a data.table signature masks its arguments.
    pub open spec fn resolve_index(
        self,
        m: Module,
        verbs: VerbsV,
        id: ExprId,
        double: bool,
        target: ExprId,
        arguments: Seq<Argument>,
    ) -> WalkV
        decreases id.0, 9int, 0int,
    {
        let ready = self.below(m, verbs, id, target);
        if !double && table_signature(m, arguments, 0) {
            WalkV {
                masked_subsets: ready.masked_subsets.insert(id.0),
                quiet: true,
                ..ready
            }.resolve_arguments(m, verbs, id, arguments, 0).with_quiet(self.quiet)
        } else {
            ready.resolve_arguments(m, verbs, id, arguments, 0)
        }
    }

    /// A function: its parameters and every name its body assigns have slots in
    /// a frame of its own, and the state around it is as it was.
    pub open spec fn resolve_function(
        self,
        m: Module,
        verbs: VerbsV,
        id: ExprId,
        parameters: Seq<Parameter>,
        body: ExprId,
    ) -> WalkV
        decreases id.0, 9int, 0int,
    {
        let (framed, frame) = self.frame_id(id);
        let inside = WalkV {
            flow: Map::empty(),
            ..framed.enter(ScopeKind::Function, frame)
        }.with_parameters(parameters, 0).premint(m, body);
        let walked = inside.resolve_defaults(m, verbs, id, parameters, 0).below(
            m,
            verbs,
            id,
            body,
        );
        WalkV { flow: self.flow, ..walked.leave() }
    }

    /// A branch: both arms start from the state after the condition, and meet.
    pub open spec fn resolve_if(
        self,
        m: Module,
        verbs: VerbsV,
        id: ExprId,
        condition: ExprId,
        then_branch: ExprId,
        else_branch: Option<ExprId>,
    ) -> WalkV
        decreases id.0, 9int, 0int,
    {
        let entry = self.below(m, verbs, id, condition);
        let taken = entry.below(m, verbs, id, then_branch);
        let other = WalkV { flow: entry.flow, ..taken };
        let after = match else_branch {
            Some(else_branch) => other.below(m, verbs, id, else_branch),
            None => other,
        };
        WalkV { flow: flow::joined(after.flow, taken.flow), ..after }
    }

    /// A `local` block: a scope of its own, run at once.
    pub open spec fn resolve_local(self, m: Module, verbs: VerbsV, id: ExprId, body: ExprId) -> WalkV
        decreases id.0, 9int, 0int,
    {
        let (framed, frame) = self.frame_id(id);
        framed.enter(ScopeKind::Local, frame).premint(m, body).below(m, verbs, id, body).leave()
    }

    /// The walk of an expression that stands before another.
    pub open spec fn below(self, m: Module, verbs: VerbsV, bound: ExprId, id: ExprId) -> WalkV
        decreases bound.0, 0int, 0int,
    {
        if id.0 < bound.0 {
            self.resolve(m, verbs, id)
        } else {
            self
        }
    }

    pub open spec fn resolve_all(
        self,
        m: Module,
        verbs: VerbsV,
        bound: ExprId,
        ids: Seq<ExprId>,
        from: int,
    ) -> WalkV
        decreases bound.0, 1int, ids.len() - from,
    {
        if 0 <= from < ids.len() {
            self.below(m, verbs, bound, ids[from]).resolve_all(m, verbs, bound, ids, from + 1)
        } else {
            self
        }
    }

    pub open spec fn resolve_arguments(
        self,
        m: Module,
        verbs: VerbsV,
        bound: ExprId,
        arguments: Seq<Argument>,
        from: int,
    ) -> WalkV
        decreases bound.0, 1int, arguments.len() - from,
    {
        if 0 <= from < arguments.len() {
            match arguments[from].value {
                Some(value) => self.below(m, verbs, bound, value),
                None => self,
            }.resolve_arguments(m, verbs, bound, arguments, from + 1)
        } else {
            self
        }
    }

    pub open spec fn resolve_defaults(
        self,
        m: Module,
        verbs: VerbsV,
        bound: ExprId,
        parameters: Seq<Parameter>,
        from: int,
    ) -> WalkV
        decreases bound.0, 1int, parameters.len() - from,
    {
        if 0 <= from < parameters.len() {
            match parameters[from].default {
                Some(default) => self.below(m, verbs, bound, default),
                None => self,
            }.resolve_defaults(m, verbs, bound, parameters, from + 1)
        } else {
            self
        }
    }

    /// The data formals of a masking call.
    pub open spec fn masking_call(self, m: Module, verbs: VerbsV, callee: ExprId) -> Option<
        Seq<Seq<char>>,
    > {
        match m.kind_of(callee) {
            ExpressionKind::NameRef(name) => if self.resolutions.dom().contains(callee.0) {
                None
            } else {
                masking(verbs, name@)
            },
            ExpressionKind::Namespace { package, name, .. } => match name {
                Some(name) => if types::opt_text(package) == Some("base"@) {
                    masking(verbs, name@)
                } else {
                    declared_masking(verbs, name@)
                },
                None => None,
            },
            _ => None,
        }
    }

    /// Whether a call is to the given name, not bound by the item itself.
    pub open spec fn calls_free(self, m: Module, callee: ExprId, name: Seq<char>) -> bool {
        m.name_of(callee) == Some(name) && !self.resolutions.dom().contains(callee.0)
    }

    /// Whether a call quotes its bare first argument.
    pub open spec fn quotes_first(self, m: Module, callee: ExprId, arguments: Seq<Argument>) -> bool {
        &&& m.name_of(callee) == Some("library"@) || m.name_of(callee) == Some("require"@)
            || m.name_of(callee) == Some("help"@)
        &&& arguments.len() > 0
        &&& arguments[0].name is None
        &&& match arguments[0].value {
            Some(value) => m.name_of(value) is Some,
            None => false,
        }
    }

    /// The arguments of a call, once its callee has been walked.
    pub open spec fn resolve_call(
        self,
        m: Module,
        verbs: VerbsV,
        id: ExprId,
        callee: ExprId,
        arguments: Seq<Argument>,
    ) -> WalkV
        decreases id.0, 5int, 0int,
    {
        if self.quotes_first(m, callee, arguments) {
            self.resolve_arguments(m, verbs, id, arguments, 1)
        } else if self.calls_free(m, callee, "on.exit"@) {
            WalkV {
                deferred: self.deferred,
                ..WalkV { deferred: true, ..self }.resolve_arguments(m, verbs, id, arguments, 0)
            }
        } else if self.calls_free(m, callee, "switch"@) && arguments.len() > 0 {
            self.resolve_switch(m, verbs, id, arguments)
        } else if self.calls_free(m, callee, "quote"@) || self.calls_free(
            m,
            callee,
            "substitute"@,
        ) || self.calls_free(m, callee, "bquote"@) || self.calls_free(m, callee, "expression"@) {
            WalkV {
                quoted: self.quoted,
                deferred: self.deferred,
                quiet: self.quiet,
                ..WalkV { quoted: true, deferred: true, quiet: true, ..self }.resolve_arguments(
                    m,
                    verbs,
                    id,
                    arguments,
                    0,
                )
            }
        } else {
            match self.masking_call(m, verbs, callee) {
                Some(leading) => {
                    let claimed = claimed_by_name(arguments, leading, arguments.len());
                    self.resolve_masked(
                        m,
                        verbs,
                        id,
                        arguments,
                        leading,
                        0,
                        if claimed <= leading.len() {
                            (leading.len() - claimed) as nat
                        } else {
                            0
                        },
                    )
                },
                None => self.resolve_arguments(m, verbs, id, arguments, 0),
            }
        }
    }

    /// The arguments of a masking call: data arguments resolve as usual, all
    /// others in the data's frame.
    pub open spec fn resolve_masked(
        self,
        m: Module,
        verbs: VerbsV,
        bound: ExprId,
        arguments: Seq<Argument>,
        leading: Seq<Seq<char>>,
        from: int,
        unclaimed: nat,
    ) -> WalkV
        decreases bound.0, 1int, arguments.len() - from,
    {
        if 0 <= from < arguments.len() {
            let (is_data, left) = match arguments[from].name {
                Some(name) => (leading.contains(name@), unclaimed),
                None => (
                    unclaimed > 0,
                    if unclaimed > 0 {
                        (unclaimed - 1) as nat
                    } else {
                        0
                    },
                ),
            };
            match arguments[from].value {
                None => self,
                Some(value) => if is_data {
                    self.below(m, verbs, bound, value)
                } else {
                    self.with_quiet(true).below(m, verbs, bound, value).with_quiet(self.quiet)
                },
            }.resolve_masked(m, verbs, bound, arguments, leading, from + 1, left)
        } else {
            self
        }
    }

    /// A `switch`: the subject, then every alternative from the state it was
    /// entered in; their end states join.
    pub open spec fn resolve_switch(
        self,
        m: Module,
        verbs: VerbsV,
        bound: ExprId,
        arguments: Seq<Argument>,
    ) -> WalkV
        decreases bound.0, 4int, 0int,
    {
        let subject = switch_subject(arguments);
        let entered = match subject {
            Some(i) => match arguments[i].value {
                Some(value) => self.below(m, verbs, bound, value),
                None => self,
            },
            None => self,
        };
        let (after, joined) = entered.resolve_branches(
            m,
            verbs,
            bound,
            arguments,
            subject,
            entered.flow,
            0,
            None,
        );
        WalkV {
            flow: match joined {
                Some(state) => if has_default(arguments) {
                    state
                } else {
                    flow::joined(state, entered.flow)
                },
                None => entered.flow,
            },
            ..after
        }
    }

    pub open spec fn resolve_branches(
        self,
        m: Module,
        verbs: VerbsV,
        bound: ExprId,
        arguments: Seq<Argument>,
        subject: Option<int>,
        entry: FlowV,
        from: int,
        joined: Option<FlowV>,
    ) -> (WalkV, Option<FlowV>)
        decreases bound.0, 3int, arguments.len() - from,
    {
        if 0 <= from < arguments.len() {
            match arguments[from].value {
                Some(value) if subject != Some(from) => {
                    let walked = WalkV { flow: entry, ..self }.below(m, verbs, bound, value);
                    let next = if diverges(m, value) {
                        joined
                    } else {
                        match joined {
                            Some(state) => Some(flow::joined(state, walked.flow)),
                            None => Some(walked.flow),
                        }
                    };
                    walked.resolve_branches(
                        m,
                        verbs,
                        bound,
                        arguments,
                        subject,
                        entry,
                        from + 1,
                        next,
                    )
                },
                _ => self.resolve_branches(
                    m,
                    verbs,
                    bound,
                    arguments,
                    subject,
                    entry,
                    from + 1,
                    joined,
                ),
            }
        } else {
            (self, joined)
        }
    }

    /// Passes over a loop body until what reaches its head no longer grows.
    pub open spec fn settle(
        self,
        m: Module,
        verbs: VerbsV,
        bound: ExprId,
        body: ExprId,
        passes: nat,
    ) -> WalkV
        decreases bound.0, 3int, passes,
    {
        let walked = self.below(m, verbs, bound, body);
        let next = WalkV { flow: flow::joined(walked.flow, self.flow), ..walked };
        if next.flow == self.flow || passes == 0 {
            next
        } else {
            next.settle(m, verbs, bound, body, (passes - 1) as nat)
        }
    }

    /// A loop body: passes to the fixed point record no findings; the last pass
    /// over the settled state does. The state after is the join of the ways out.
    pub open spec fn resolve_loop(
        self,
        m: Module,
        verbs: VerbsV,
        bound: ExprId,
        body: ExprId,
        may_skip: bool,
    ) -> WalkV
        decreases bound.0, 4int, 0int,
    {
        let settled = WalkV { emit: false, loop_exits: Seq::empty(), ..self }.settle(
            m,
            verbs,
            bound,
            body,
            usize::MAX as nat,
        );
        let last = WalkV { emit: self.emit, loop_exits: Seq::empty(), ..settled }.below(
            m,
            verbs,
            bound,
            body,
        );
        let left = join_all(last.flow, last.loop_exits, 0);
        WalkV {
            flow: if may_skip {
                flow::joined(left, self.flow)
            } else if last.loop_exits.len() == 0 {
                flow::joined(left, settled.flow)
            } else {
                left
            },
            loop_exits: self.loop_exits,
            ..last
        }
    }

    /// The target of an assignment.
    pub open spec fn resolve_target(
        self,
        m: Module,
        verbs: VerbsV,
        id: ExprId,
        target: ExprId,
        spelling: AssignSpelling,
    ) -> WalkV
        decreases id.0, 5int, 0int,
    {
        if target.0 >= id.0 {
            self
        } else if self.quoted {
            self.below(m, verbs, id, target)
        } else {
            match target_name(m, target) {
                Some(name) => if spelling == AssignSpelling::Super {
                    self.assign_super(id, target, name, m.range_of(target))
                } else {
                    self.assign_own(id, target, name, m.range_of(target))
                },
                None => match replacement_base(m, target) {
                    Some(base) => self.resolve_replacement(m, verbs, id, target, base),
                    None => if self.emit && refuses_assignment(m.kind_of(target)) {
                        WalkV {
                            invalid_targets: self.invalid_targets.push(
                                InvalidAssignmentTarget {
                                    range: m.range_of(target),
                                    operand_gap: operand_gap(m, target),
                                },
                            ),
                            ..self
                        }
                    } else {
                        self.below(m, verbs, id, target)
                    },
                },
            }
        }
    }

    /// A replacement form reads its base, rebinds it in the innermost scope, and
    /// walks the rest of the target.
    pub open spec fn resolve_replacement(
        self,
        m: Module,
        verbs: VerbsV,
        id: ExprId,
        target: ExprId,
        base: ExprId,
    ) -> WalkV
        decreases id.0, 4int, 0int,
    {
        let name = match m.name_of(base) {
            Some(name) => name,
            None => Seq::empty(),
        };
        let range = m.range_of(base);
        let (ready, slot) = self.below(m, verbs, id, base).own_or_minted(name, range);
        let written = WalkV {
            resolutions: ready.resolutions.insert(base.0, slot),
            ..ready
        }.write_at(id, name, range, slot, false);
        if target.0 < id.0 {
            written.resolve_subscripts(m, verbs, target, base)
        } else {
            written
        }
    }

    /// Everything in a replacement target but its base name.
    pub open spec fn resolve_subscripts(
        self,
        m: Module,
        verbs: VerbsV,
        target: ExprId,
        base: ExprId,
    ) -> WalkV
        decreases target.0, 20int, 0int,
    {
        if target == base {
            self
        } else {
            match m.kind_of(target) {
                ExpressionKind::Field { target: inner, .. } => if inner.0 < target.0 {
                    self.resolve_subscripts(m, verbs, inner, base)
                } else {
                    self
                },
                ExpressionKind::Index { target: inner, arguments, .. } => {
                    let ready = if inner.0 < target.0 {
                        self.resolve_subscripts(m, verbs, inner, base)
                    } else {
                        self
                    };
                    ready.resolve_arguments(m, verbs, target, arguments@, 0)
                },
                ExpressionKind::Call { callee, arguments } => {
                    let called = self.with_quiet(true).below(m, verbs, target, callee).with_quiet(
                        self.quiet,
                    );
                    let ready = if arguments@.len() > 0 {
                        match arguments@[0].value {
                            Some(value) => if value.0 < target.0 {
                                called.resolve_subscripts(m, verbs, value, base)
                            } else {
                                called
                            },
                            None => called,
                        }
                    } else {
                        called
                    };
                    ready.resolve_arguments(m, verbs, target, arguments@, 1)
                },
                _ => self.resolve(m, verbs, target),
            }
        }
    }
}

} // verus!
