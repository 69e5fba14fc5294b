//! The model of the inference table: what binding, unification and
//! compatibility mean on a sequence of entries.

use vstd::prelude::*;

use crate::annotations::DefinitionV;
use crate::types::{
    Atomic, Constraint, FieldV, FunctionV, InferenceVar, ParameterV, TyV,
};

verus! {

/// How deep resolution expands alias applications before it leaves one as
/// written.
pub const ALIAS_EXPANSION_LIMIT: usize = 64;

/// How deep a compatibility check recurses before it refuses.
pub const DEPTH_LIMIT: usize = 128;

/// What the table knows of one variable.
pub enum EntryV {
    Unbound { level: u32, constraint: Constraint },
    Bound(TyV),
    Redirect(InferenceVar),
}

impl EntryV {
    /// Whether this can be the entry of the variable with the given index.
    pub open spec fn suits(self, index: int) -> bool {
        match self {
            EntryV::Redirect(to) => to.0 < index,
            EntryV::Bound(ty) => ty !is Var,
            EntryV::Unbound { .. } => true,
        }
    }
}

/// Why two types do not unify.
pub enum UnifyErrorV {
    Mismatch(TyV, TyV),
    Occurs(InferenceVar, TyV),
    ConstraintRejected(Constraint, TyV),
}

/// The declared names a check can see.
pub struct VocabularyV {
    pub definitions: Map<Seq<char>, DefinitionV>,
    pub nominals: Seq<Seq<char>>,
    pub arithmetic_classes: Set<Seq<char>>,
}

/// The declaration a name has.
pub open spec fn declared(definitions: Map<Seq<char>, DefinitionV>, name: Seq<char>) -> Option<
    DefinitionV,
> {
    if definitions.dom().contains(name) {
        Some(definitions[name])
    } else {
        None
    }
}

impl DefinitionV {
    /// What replaces each parameter: the argument in its place, or `Unknown`
    /// where too few are given.
    pub open spec fn arguments_by_name(self, arguments: Seq<TyV>) -> Seq<(Seq<char>, TyV)> {
        Seq::new(
            self.parameters.len(),
            |i: int|
                (
                    self.parameters[i],
                    if i < arguments.len() {
                        arguments[i]
                    } else {
                        TyV::Unknown
                    },
                ),
        )
    }

    /// The body with the arguments in the places of the parameters.
    pub open spec fn apply(self, arguments: Seq<TyV>) -> TyV {
        if self.parameters.len() == 0 {
            self.body
        } else {
            self.body.substitute(self.arguments_by_name(arguments))
        }
    }
}

/// The constraint a list of declared binders gives a name.
pub open spec fn binder_constraint(
    binders: Seq<(Seq<char>, Constraint)>,
    name: Seq<char>,
) -> Option<Constraint>
    decreases binders.len(),
{
    if binders.len() == 0 {
        None
    } else if binders.last().0 == name {
        Some(binders.last().1)
    } else {
        binder_constraint(binders.drop_last(), name)
    }
}

/// A list of declared binders in which a name has the given constraint and
/// every other name keeps its own: the binder's place is kept where it has one.
pub open spec fn with_binder(
    binders: Seq<(Seq<char>, Constraint)>,
    name: Seq<char>,
    constraint: Constraint,
) -> Seq<(Seq<char>, Constraint)>
    decreases binders.len(),
{
    if binders.len() == 0 {
        seq![(name, constraint)]
    } else if binders.last().0 == name {
        binders.drop_last().push((name, constraint))
    } else {
        with_binder(binders.drop_last(), name, constraint).push(binders.last())
    }
}

/// The inference table: the entries, the log that undoes changes to them, and
/// what a check declared.
pub struct TableV {
    pub entries: Seq<EntryV>,
    pub undo: Seq<(InferenceVar, EntryV)>,
    pub level: u32,
    pub binders: Seq<(Seq<char>, Constraint)>,
    pub vocabulary: VocabularyV,
}

/// A point a table can be rolled back to.
pub struct SnapshotV {
    pub entries: nat,
    pub undo: nat,
}

/// The stack mark of an alias expansion.
pub open spec fn alias_mark() -> InferenceVar {
    InferenceVar(u32::MAX)
}

impl TableV {
    /// Redirects lead to older variables, and a binding is never a bare
    /// variable; that holds of the log as well.
    pub open spec fn wf(self) -> bool {
        &&& forall|i: int|
            #![trigger self.entries[i]]
            0 <= i < self.entries.len() ==> self.entries[i].suits(i)
        &&& forall|i: int|
            #![trigger self.undo[i]]
            0 <= i < self.undo.len() ==> self.undo[i].1.suits(self.undo[i].0.0 as int)
    }

    pub open spec fn holds(self, var: InferenceVar) -> bool {
        var.0 < self.entries.len()
    }

    pub open spec fn snapshot(self) -> SnapshotV {
        SnapshotV { entries: self.entries.len(), undo: self.undo.len() }
    }

    /// The table with one entry replaced, and the change on the log.
    pub open spec fn set(self, var: InferenceVar, entry: EntryV) -> TableV {
        TableV {
            entries: self.entries.update(var.0 as int, entry),
            undo: self.undo.push((var, self.entries[var.0 as int])),
            ..self
        }
    }

    /// The table after every change since the snapshot is undone, latest first.
    pub open spec fn rolled_back(self, to: SnapshotV) -> TableV
        decreases self.undo.len(),
    {
        if self.undo.len() <= to.undo || self.undo.len() == 0 {
            TableV {
                entries: if to.entries <= self.entries.len() {
                    self.entries.subrange(0, to.entries as int)
                } else {
                    self.entries
                },
                ..self
            }
        } else {
            let (var, previous) = self.undo.last();
            TableV {
                entries: if var.0 < to.entries && self.holds(var) {
                    self.entries.update(var.0 as int, previous)
                } else {
                    self.entries
                },
                undo: self.undo.drop_last(),
                ..self
            }.rolled_back(to)
        }
    }

    /// Whether this table came from another by changes that the log undoes: one
    /// that rolls back to exactly that table.
    pub open spec fn grown_from(self, before: TableV) -> bool {
        &&& before.entries.len() <= self.entries.len()
        &&& before.undo.len() <= self.undo.len()
        &&& self.rolled_back(before.snapshot()) == before
    }

    /// The table with a new unbound variable at the current level.
    pub open spec fn with_fresh(self, constraint: Constraint) -> TableV {
        TableV {
            entries: self.entries.push(EntryV::Unbound { level: self.level, constraint }),
            ..self
        }
    }

    /// The variable the next fresh one will be.
    pub open spec fn next_var(self) -> InferenceVar {
        InferenceVar(self.entries.len() as u32)
    }

    /// The representative at the end of a redirect chain.
    pub open spec fn find(self, var: InferenceVar) -> InferenceVar
        decreases var.0,
    {
        if self.holds(var) {
            match self.entries[var.0 as int] {
                EntryV::Redirect(to) => if to.0 < var.0 {
                    self.find(to)
                } else {
                    var
                },
                _ => var,
            }
        } else {
            var
        }
    }

    /// A variable's binding, or its representative; any other type as it is.
    pub open spec fn shallow(self, ty: TyV) -> TyV {
        match ty {
            TyV::Var(var) => {
                let root = self.find(var);
                if self.holds(root) {
                    match self.entries[root.0 as int] {
                        EntryV::Bound(bound) => bound,
                        _ => TyV::Var(root),
                    }
                } else {
                    TyV::Var(root)
                }
            },
            _ => ty,
        }
    }

    pub open spec fn definition(self, name: Seq<char>) -> Option<DefinitionV> {
        declared(self.vocabulary.definitions, name)
    }

    /// Whether a type applies a name that nothing declares, or a declared one to
    /// the wrong number of arguments.
    pub open spec fn undeclared(self, ty: TyV) -> bool {
        match ty {
            TyV::Named(name, arguments) => match self.definition(name) {
                Some(definition) => definition.parameters.len() != arguments.len(),
                None => !self.vocabulary.nominals.contains(name),
            },
            _ => false,
        }
    }

    /// A nominal's representation with its arguments applied.
    pub open spec fn representation(self, name: Seq<char>, arguments: Seq<TyV>) -> Option<TyV> {
        match self.definition(name) {
            Some(definition) => if definition.alias || definition.body is Unknown {
                None
            } else {
                Some(definition.apply(arguments))
            },
            None => None,
        }
    }

    /// How long the stack of expansions can grow: every variable once, and the
    /// alias expansions.
    pub open spec fn stack_bound(self) -> int {
        self.entries.len() + ALIAS_EXPANSION_LIMIT
    }

    /// The type with every bound variable replaced and every alias expanded,
    /// below the expansions that stand on the stack.
    pub open spec fn resolve_below(self, ty: TyV, stack: Seq<InferenceVar>) -> TyV
        decreases self.stack_bound() - stack.len(), ty, 1int,
    {
        match ty {
            TyV::Var(var) => {
                let root = self.find(var);
                let shallow = self.shallow(ty);
                if shallow is Var {
                    shallow
                } else if stack.contains(root) || stack.len() >= self.stack_bound() {
                    TyV::Unknown
                } else {
                    self.resolve_below(shallow, stack.push(root))
                }
            },
            _ => {
                let resolved = ty.with_children(self.resolve_children(ty, stack));
                match resolved {
                    TyV::Named(name, arguments) => match self.definition(name) {
                        Some(definition) => if definition.alias && stack.len()
                            < ALIAS_EXPANSION_LIMIT {
                            self.resolve_below(
                                definition.apply(arguments),
                                stack.push(alias_mark()),
                            )
                        } else {
                            resolved
                        },
                        None => resolved,
                    },
                    _ => resolved,
                }
            },
        }
    }

    pub open spec fn resolve_children(self, ty: TyV, stack: Seq<InferenceVar>) -> Seq<TyV>
        decreases self.stack_bound() - stack.len(), ty, 0int,
    {
        proof {
            assert forall|i: int| 0 <= i < ty.children().len() implies decreases_to!(
                ty => ty.children()[i]
            ) by {
                crate::types::child_decreases(ty, i);
            }
        }
        Seq::new(
            ty.children().len(),
            |i: int|
                if 0 <= i < ty.children().len() {
                    self.resolve_below(ty.children()[i], stack)
                } else {
                    TyV::Any
                },
        )
    }

    /// The type with every bound variable replaced and every alias expanded.
    pub open spec fn resolve(self, ty: TyV) -> TyV {
        self.resolve_below(ty, Seq::empty())
    }

    /// Whether `var` stands in the type, through at most `crossings` bindings on
    /// each path.
    pub open spec fn occurs_within(self, var: InferenceVar, ty: TyV, crossings: nat) -> bool
        decreases crossings, ty,
    {
        match ty {
            TyV::Var(_) => match self.shallow(ty) {
                TyV::Var(other) => self.find(other) == var,
                bound => crossings > 0 && self.occurs_within(var, bound, (crossings - 1) as nat),
            },
            _ => {
                proof {
                    assert forall|i: int| 0 <= i < ty.children().len() implies decreases_to!(
                        ty => ty.children()[i]
                    ) by {
                        crate::types::child_decreases(ty, i);
                    }
                }
                exists|i: int|
                    0 <= i < ty.children().len() && self.occurs_within(
                        var,
                        #[trigger] ty.children()[i],
                        crossings,
                    )
            },
        }
    }

    /// Whether `var` stands in the type. A path crosses each binding at most
    /// once, so it crosses no more than there are entries.
    pub open spec fn occurs(self, var: InferenceVar, ty: TyV) -> bool {
        self.occurs_within(var, ty, self.entries.len())
    }

    /// The table with the unbound variables of the type lowered to `level`.
    pub open spec fn lowered_within(self, level: u32, ty: TyV, crossings: nat) -> TableV
        decreases crossings, ty, 1int, 0int,
    {
        match ty {
            TyV::Var(_) => match self.shallow(ty) {
                TyV::Var(root) => if self.holds(root) {
                    match self.entries[root.0 as int] {
                        EntryV::Unbound { level: own, constraint } => if own > level {
                            self.set(root, EntryV::Unbound { level, constraint })
                        } else {
                            self
                        },
                        _ => self,
                    }
                } else {
                    self
                },
                bound => if crossings > 0 {
                    self.lowered_within(level, bound, (crossings - 1) as nat)
                } else {
                    self
                },
            },
            _ => self.children_lowered(level, ty, 0, crossings),
        }
    }

    pub open spec fn children_lowered(
        self,
        level: u32,
        ty: TyV,
        from: int,
        crossings: nat,
    ) -> TableV
        decreases crossings, ty, 0int, ty.children().len() - from,
    {
        if 0 <= from < ty.children().len() {
            proof {
                crate::types::child_decreases(ty, from);
            }
            self.lowered_within(level, ty.children()[from], crossings).children_lowered(
                level,
                ty,
                from + 1,
                crossings,
            )
        } else {
            self
        }
    }

    /// Whether a binder's declared constraint is at least as strong.
    pub open spec fn binder_implies(self, name: Seq<char>, constraint: Constraint) -> bool {
        match binder_constraint(self.binders, name) {
            Some(own) => own.joined(constraint) == own,
            None => false,
        }
    }

    /// Whether a type may stand for a variable with the given constraint.
    pub open spec fn admits(self, constraint: Constraint, ty: TyV) -> bool {
        match constraint {
            Constraint::Unconstrained => true,
            Constraint::Numeric => match ty {
                TyV::Any | TyV::Unknown => true,
                TyV::Scalar(_) => is_number(ty),
                TyV::Vector(element) => is_number(*element),
                TyV::NamedVector(element) => is_number(*element),
                TyV::Named(name, _) => self.vocabulary.arithmetic_classes.contains(name),
                TyV::Rigid(name) => self.binder_implies(name, constraint),
                _ => false,
            },
            Constraint::AtomicElement => match ty {
                TyV::Any | TyV::Unknown | TyV::Scalar(_) => true,
                TyV::Rigid(name) => self.binder_implies(name, constraint),
                _ => false,
            },
            Constraint::ScalarNumeric => match ty {
                TyV::Any | TyV::Unknown => true,
                TyV::Scalar(_) => is_number(ty),
                TyV::Named(name, _) => self.vocabulary.arithmetic_classes.contains(name),
                TyV::Rigid(name) => self.binder_implies(name, constraint),
                _ => false,
            },
        }
    }

    /// Binding a variable to a type that is not a variable: refused where the
    /// variable stands in the type, or where its constraint does not admit it.
    /// A variable the table does not hold stands for nothing and takes anything.
    pub open spec fn bind(self, var: InferenceVar, ty: TyV) -> (TableV, Result<(), UnifyErrorV>) {
        let root = self.find(var);
        if !self.holds(root) {
            (self, Ok(()))
        } else if self.occurs(root, ty) {
            (self, Err(UnifyErrorV::Occurs(root, ty)))
        } else {
            match self.entries[root.0 as int] {
                EntryV::Unbound { level, constraint } => if self.admits(constraint, ty) {
                    (
                        self.lowered_within(level, ty, self.entries.len()).set(
                            root,
                            EntryV::Bound(ty),
                        ),
                        Ok(()),
                    )
                } else {
                    (self, Err(UnifyErrorV::ConstraintRejected(constraint, ty)))
                },
                _ => (self, Ok(())),
            }
        }
    }

    /// Tying two distinct representatives: the younger redirects to the older,
    /// which takes the lower level and the joined constraint.
    pub open spec fn tie(self, left: InferenceVar, right: InferenceVar) -> TableV {
        let (winner, loser) = if left.0 <= right.0 {
            (left, right)
        } else {
            (right, left)
        };
        if !self.holds(left) || !self.holds(right) {
            self
        } else {
            match (self.entries[left.0 as int], self.entries[right.0 as int]) {
                (
                    EntryV::Unbound { level: left_level, constraint: left_constraint },
                    EntryV::Unbound { level: right_level, constraint: right_constraint },
                ) => self.set(
                    winner,
                    EntryV::Unbound {
                        level: if left_level <= right_level {
                            left_level
                        } else {
                            right_level
                        },
                        constraint: left_constraint.joined(right_constraint),
                    },
                ).set(loser, EntryV::Redirect(winner)),
                _ => self,
            }
        }
    }

    /// Unification, at most `budget` steps deep.
    pub open spec fn unify_within(self, a: TyV, b: TyV, budget: nat) -> (
        TableV,
        Result<(), UnifyErrorV>,
    )
        decreases budget, 1int, 0int,
    {
        let a = self.shallow(a);
        let b = self.shallow(b);
        if a == b {
            (self, Ok(()))
        } else {
            match unify_step(self, a, b) {
                UnifyStepV::Done => (self, Ok(())),
                UnifyStepV::Tie(left, right) => (self.tie(left, right), Ok(())),
                UnifyStepV::Bind(var, ty) => self.bind(var, ty),
                UnifyStepV::Refuse => (self, Err(UnifyErrorV::Mismatch(a, b))),
                UnifyStepV::Pairs(pairs) => if budget == 0 {
                    (self, Err(UnifyErrorV::Mismatch(a, b)))
                } else {
                    self.unify_pairs(pairs, 0, (budget - 1) as nat)
                },
            }
        }
    }

    /// Unification of pair after pair, up to the first that fails.
    pub open spec fn unify_pairs(self, pairs: Seq<(TyV, TyV)>, from: int, budget: nat) -> (
        TableV,
        Result<(), UnifyErrorV>,
    )
        decreases budget, 2int, pairs.len() - from,
    {
        if 0 <= from < pairs.len() {
            let (table, outcome) = self.unify_within(pairs[from].0, pairs[from].1, budget);
            if outcome is Ok {
                table.unify_pairs(pairs, from + 1, budget)
            } else {
                (table, outcome)
            }
        } else {
            (self, Ok(()))
        }
    }

    /// Unification: ties and binds variables until two types agree, or refuses.
    /// Absent facts agree with anything; plain types resolve alike afterwards.
    pub open spec fn unify(self, a: TyV, b: TyV) -> (TableV, Result<(), UnifyErrorV>) {
        self.unify_within(a, b, usize::MAX as nat)
    }

    /// Adding a demand to a variable: the constraints join where it is unbound,
    /// and its binding is tested where it has one.
    pub open spec fn constrain(self, var: InferenceVar, constraint: Constraint) -> (
        TableV,
        Result<(), UnifyErrorV>,
    ) {
        let root = self.find(var);
        if !self.holds(root) {
            (self, Ok(()))
        } else {
            match self.entries[root.0 as int] {
                EntryV::Unbound { level, constraint: existing } => {
                    let joined = existing.joined(constraint);
                    if joined != existing {
                        (self.set(root, EntryV::Unbound { level, constraint: joined }), Ok(()))
                    } else {
                        (self, Ok(()))
                    }
                },
                EntryV::Bound(ty) => if self.admits(constraint, ty) {
                    (self, Ok(()))
                } else {
                    (self, Err(UnifyErrorV::ConstraintRejected(constraint, ty)))
                },
                EntryV::Redirect(_) => (self, Ok(())),
            }
        }
    }

    /// The constraint a type carries that resolves to an unbound variable.
    pub open spec fn open_constraint(self, ty: TyV) -> Option<Constraint> {
        match self.resolve(ty) {
            TyV::Var(var) => {
                let root = self.find(var);
                if self.holds(root) {
                    match self.entries[root.0 as int] {
                        EntryV::Unbound { constraint, .. } => Some(constraint),
                        _ => None,
                    }
                } else {
                    None
                }
            },
            _ => None,
        }
    }

    /// The demand an unbound variable carries, where it carries any.
    pub open spec fn variable_constraint(self, ty: TyV) -> Option<Constraint> {
        match ty {
            TyV::Var(var) => {
                let root = self.find(var);
                if self.holds(root) {
                    match self.entries[root.0 as int] {
                        EntryV::Unbound { constraint, .. } => if constraint
                            == Constraint::Unconstrained {
                            None
                        } else {
                            Some(constraint)
                        },
                        _ => None,
                    }
                } else {
                    None
                }
            },
            _ => None,
        }
    }

    /// The numbers of the unbound variables of the type, added to those already
    /// found.
    pub open spec fn unbound_within(
        self,
        ty: TyV,
        found: Set<u32>,
        crossings: nat,
    ) -> Set<u32>
        decreases crossings, ty, 1int, 0int,
    {
        match ty {
            TyV::Var(_) => match self.shallow(ty) {
                TyV::Var(root) => found.insert(root.0),
                bound => if crossings > 0 {
                    self.unbound_within(bound, found, (crossings - 1) as nat)
                } else {
                    found
                },
            },
            _ => self.unbound_in_children(ty, 0, found, crossings),
        }
    }

    pub open spec fn unbound_in_children(
        self,
        ty: TyV,
        from: int,
        found: Set<u32>,
        crossings: nat,
    ) -> Set<u32>
        decreases crossings, ty, 0int, ty.children().len() - from,
    {
        if 0 <= from < ty.children().len() {
            proof {
                crate::types::child_decreases(ty, from);
            }
            self.unbound_in_children(
                ty,
                from + 1,
                self.unbound_within(ty.children()[from], found, crossings),
                crossings,
            )
        } else {
            found
        }
    }

    pub open spec fn unbound_vars(self, ty: TyV, found: Set<u32>) -> Set<u32> {
        self.unbound_within(ty, found, self.entries.len())
    }

    /// Whether an unbound variable stands in the resolved type.
    pub open spec fn has_unbound(self, ty: TyV) -> bool {
        self.resolve(ty).has_var()
    }

    /// Whether a value of the first type may flow where the second is expected.
    /// Bindings stay where it may; where it may not, the table is unchanged.
    pub open spec fn compatible_at(self, actual: TyV, expected: TyV, depth: nat) -> (TableV, bool)
        decreases DEPTH_LIMIT - depth, 1int, 0int,
    {
        if depth >= DEPTH_LIMIT {
            (self, false)
        } else {
            let (table, verdict) = match compatible_step(
                self,
                self.resolve(actual),
                self.resolve(expected),
            ) {
                CompatibleStepV::Verdict(verdict) => (self, verdict),
                CompatibleStepV::Unify(a, b) => {
                    let (table, outcome) = self.unify(a, b);
                    (table, outcome is Ok)
                },
                CompatibleStepV::Every(pairs) => self.compatible_every(pairs, 0, depth + 1),
                CompatibleStepV::AnyOf(actual, options) => self.compatible_any(
                    actual,
                    options,
                    0,
                    depth + 1,
                ),
            };
            if verdict {
                (table, true)
            } else {
                (self, false)
            }
        }
    }

    pub open spec fn compatible_every(
        self,
        pairs: Seq<(TyV, TyV)>,
        from: int,
        depth: nat,
    ) -> (TableV, bool)
        decreases DEPTH_LIMIT - depth, 2int, pairs.len() - from,
    {
        if 0 <= from < pairs.len() {
            let (table, verdict) = self.compatible_at(pairs[from].0, pairs[from].1, depth);
            if verdict {
                table.compatible_every(pairs, from + 1, depth)
            } else {
                (table, false)
            }
        } else {
            (self, true)
        }
    }

    pub open spec fn compatible_any(
        self,
        actual: TyV,
        options: Seq<TyV>,
        from: int,
        depth: nat,
    ) -> (TableV, bool)
        decreases DEPTH_LIMIT - depth, 2int, options.len() - from,
    {
        if 0 <= from < options.len() {
            let (table, verdict) = self.compatible_at(actual, options[from], depth);
            if verdict {
                (table, true)
            } else {
                table.compatible_any(actual, options, from + 1, depth)
            }
        } else {
            (self, false)
        }
    }

    pub open spec fn compatible(self, actual: TyV, expected: TyV) -> (TableV, bool) {
        self.compatible_at(actual, expected, 0)
    }
}

/// Whether a type is a single integer or double.
pub open spec fn is_number(ty: TyV) -> bool {
    ty == TyV::Scalar(Atomic::Integer) || ty == TyV::Scalar(Atomic::Double)
}

/// What unifying two distinct shallow types asks for.
pub enum UnifyStepV {
    Done,
    Tie(InferenceVar, InferenceVar),
    Bind(InferenceVar, TyV),
    Pairs(Seq<(TyV, TyV)>),
    Refuse,
}

/// Corresponding elements.
pub open spec fn zipped(left: Seq<TyV>, right: Seq<TyV>) -> Seq<(TyV, TyV)> {
    Seq::new(
        if left.len() <= right.len() {
            left.len()
        } else {
            right.len()
        },
        |i: int| (left[i], right[i]),
    )
}

/// Whether two records declare the same fields in the same order.
pub open spec fn same_field_shape(left: Seq<FieldV>, right: Seq<FieldV>) -> bool {
    &&& left.len() == right.len()
    &&& forall|i: int|
        #![trigger left[i]]
        0 <= i < left.len() ==> left[i].name == right[i].name && left[i].optional
            == right[i].optional
}

/// Whether two signatures declare the same formals in the same order.
pub open spec fn same_signature_shape(left: FunctionV, right: FunctionV) -> bool {
    &&& left.positional.len() == right.positional.len()
    &&& left.named.len() == right.named.len()
    &&& left.variadic is Some == right.variadic is Some
    &&& forall|i: int|
        #![trigger left.named[i]]
        0 <= i < left.named.len() ==> left.named[i].name == right.named[i].name
            && left.named[i].optional == right.named[i].optional
}

pub open spec fn field_types(fields: Seq<FieldV>) -> Seq<TyV> {
    Seq::new(fields.len(), |i: int| fields[i].ty)
}

pub open spec fn formal_types(params: Seq<ParameterV>) -> Seq<TyV> {
    Seq::new(params.len(), |i: int| params[i].ty)
}

impl FunctionV {
    /// The types of a signature that take part in unification: every formal, the
    /// rest element and the return, but no default.
    pub open spec fn signature_types(self) -> Seq<TyV> {
        self.positional + formal_types(self.named) + (match self.variadic {
            Some(rest) => seq![rest.element],
            None => Seq::empty(),
        }) + seq![self.ret]
    }
}

/// `T | NULL` yields `T`.
pub open spec fn nullable_member(members: Seq<TyV>) -> Option<TyV> {
    if members.len() != 2 {
        None
    } else if members[0] is Null {
        Some(members[1])
    } else if members[1] is Null {
        Some(members[0])
    } else {
        None
    }
}

/// Whether every type of the first list stands in the second.
pub open spec fn all_in(left: Seq<TyV>, right: Seq<TyV>) -> bool {
    forall|i: int| 0 <= i < left.len() ==> right.contains(#[trigger] left[i])
}

/// Unions unify by set equality once resolved, and member-wise where both are
/// `T | NULL`.
pub open spec fn unify_union_step(table: TableV, a: TyV, b: TyV) -> UnifyStepV {
    let left = table.resolve(a);
    let right = table.resolve(b);
    if left == right {
        UnifyStepV::Done
    } else {
        match (left, right) {
            (TyV::Union(left_members), TyV::Union(right_members)) => match (
                nullable_member(left_members),
                nullable_member(right_members),
            ) {
                (Some(left_inner), Some(right_inner)) => UnifyStepV::Pairs(
                    seq![(left_inner, right_inner)],
                ),
                _ => if left_members.len() == right_members.len() && all_in(
                    left_members,
                    right_members,
                ) {
                    UnifyStepV::Done
                } else {
                    UnifyStepV::Refuse
                },
            },
            _ => UnifyStepV::Pairs(seq![(left, right)]),
        }
    }
}

/// What unifying two distinct shallow types asks for. Unification is syntactic:
/// a variable ties or binds, an absent fact is tolerated, equal shapes unify part
/// by part, and nothing widens.
pub open spec fn unify_step(table: TableV, a: TyV, b: TyV) -> UnifyStepV {
    match (a, b) {
        (TyV::Var(left), TyV::Var(right)) => UnifyStepV::Tie(left, right),
        (TyV::Var(var), _) => UnifyStepV::Bind(var, b),
        (_, TyV::Var(var)) => UnifyStepV::Bind(var, a),
        _ => if a is Any || b is Any || a is Unknown || b is Unknown {
            UnifyStepV::Done
        } else if table.undeclared(a) || table.undeclared(b) {
            UnifyStepV::Done
        } else {
            match (a, b) {
                (TyV::Vector(left), TyV::Vector(right)) => UnifyStepV::Pairs(
                    seq![(*left, *right)],
                ),
                (TyV::NamedVector(left), TyV::NamedVector(right)) => UnifyStepV::Pairs(
                    seq![(*left, *right)],
                ),
                (TyV::List(left), TyV::List(right)) => UnifyStepV::Pairs(seq![(*left, *right)]),
                (TyV::NamedList(left), TyV::NamedList(right)) => UnifyStepV::Pairs(
                    seq![(*left, *right)],
                ),
                (TyV::Tuple(left), TyV::Tuple(right)) => if left.len() == right.len() {
                    UnifyStepV::Pairs(zipped(left, right))
                } else {
                    UnifyStepV::Refuse
                },
                (TyV::Record(left), TyV::Record(right)) => if same_field_shape(left, right) {
                    UnifyStepV::Pairs(zipped(field_types(left), field_types(right)))
                } else {
                    UnifyStepV::Refuse
                },
                (TyV::Function(left), TyV::Function(right)) => if same_signature_shape(
                    *left,
                    *right,
                ) {
                    UnifyStepV::Pairs(zipped(left.signature_types(), right.signature_types()))
                } else {
                    UnifyStepV::Refuse
                },
                (TyV::Named(left, left_arguments), TyV::Named(right, right_arguments)) => if left
                    == right && left_arguments.len() == right_arguments.len() {
                    UnifyStepV::Pairs(zipped(left_arguments, right_arguments))
                } else {
                    UnifyStepV::Refuse
                },
                (TyV::Union(_), TyV::Union(_)) => unify_union_step(table, a, b),
                _ => UnifyStepV::Refuse,
            }
        },
    }
}

/// What a compatibility check of two resolved types asks for.
pub enum CompatibleStepV {
    Verdict(bool),
    Unify(TyV, TyV),
    Every(Seq<(TyV, TyV)>),
    AnyOf(TyV, Seq<TyV>),
}

/// The promotion ladder: `logical`, `integer`, `double`, `complex`.
pub open spec fn ladder_rank(atomic: Atomic) -> Option<u8> {
    match atomic {
        Atomic::Logical => Some(0u8),
        Atomic::Integer => Some(1u8),
        Atomic::Double => Some(2u8),
        Atomic::Complex => Some(3u8),
        Atomic::Character => None,
        Atomic::Raw => None,
    }
}

/// Whether one atomic mode is promoted to another in a numeric context.
pub open spec fn promotes(from: Atomic, to: Atomic) -> bool {
    match (ladder_rank(from), ladder_rank(to)) {
        (Some(low), Some(high)) => low < high,
        _ => false,
    }
}

/// How a declared parameter's argument may vary.
#[derive(Debug, Clone, Copy, PartialEq, Eq, Structural)]
pub enum Variance {
    /// The parameter never occurs in the representation.
    Bivariant,
    Covariant,
    Contravariant,
    /// The parameter occurs in conflicting positions.
    Invariant,
}

impl TyV {
    /// Whether a binder stands in the type at a position of the given polarity:
    /// function parameters flip it, and the arguments of a nominal have both.
    pub open spec fn occurs_signed(self, name: Seq<char>, positive: bool) -> bool
        decreases self,
    {
        match self {
            TyV::Rigid(own) => own == name && positive,
            TyV::Vector(inner) => inner.occurs_signed(name, positive),
            TyV::NamedVector(inner) => inner.occurs_signed(name, positive),
            TyV::List(inner) => inner.occurs_signed(name, positive),
            TyV::NamedList(inner) => inner.occurs_signed(name, positive),
            TyV::Tuple(items) => TyV::any_occurs_signed(items, name, positive),
            TyV::Union(members) => TyV::any_occurs_signed(members, name, positive),
            TyV::Record(fields) => exists|i: int|
                0 <= i < fields.len() && (#[trigger] fields[i]).ty.occurs_signed(name, positive),
            TyV::Named(_, arguments) => exists|i: int|
                0 <= i < arguments.len() && ((#[trigger] arguments[i]).occurs_signed(name, true)
                    || arguments[i].occurs_signed(name, false)),
            TyV::Function(function) => {
                ||| exists|i: int|
                    0 <= i < function.positional.len() && (
                    #[trigger] function.positional[i]).occurs_signed(name, !positive)
                ||| exists|i: int|
                    0 <= i < function.named.len() && (
                    #[trigger] function.named[i]).ty.occurs_signed(name, !positive)
                ||| match function.variadic {
                    Some(rest) => rest.element.occurs_signed(name, !positive),
                    None => false,
                }
                ||| function.ret.occurs_signed(name, positive)
            },
            _ => false,
        }
    }

    pub open spec fn any_occurs_signed(items: Seq<TyV>, name: Seq<char>, positive: bool) -> bool
        decreases items,
    {
        exists|i: int| 0 <= i < items.len() && (#[trigger] items[i]).occurs_signed(name, positive)
    }
}

/// The first place of a name.
pub open spec fn is_first(names: Seq<Seq<char>>, i: int) -> bool {
    forall|j: int| 0 <= j < i ==> names[j] != names[i]
}

impl DefinitionV {
    /// The variance of each parameter, from where it occurs in the body. Where a
    /// name is declared twice, the first declaration owns its occurrences.
    pub open spec fn variance(self, i: int) -> Variance {
        let first = is_first(self.parameters, i);
        let positive = first && self.body.occurs_signed(self.parameters[i], true);
        let negative = first && self.body.occurs_signed(self.parameters[i], false);
        if positive && negative {
            Variance::Invariant
        } else if positive {
            Variance::Covariant
        } else if negative {
            Variance::Contravariant
        } else {
            Variance::Bivariant
        }
    }

    pub open spec fn variances(self) -> Seq<Variance> {
        Seq::new(self.parameters.len(), |i: int| self.variance(i))
    }
}

/// The pairs one argument pair asks for under a variance.
pub open spec fn argument_pairs(variance: Variance, actual: TyV, expected: TyV) -> Seq<(TyV, TyV)> {
    match variance {
        Variance::Bivariant => Seq::empty(),
        Variance::Covariant => seq![(actual, expected)],
        Variance::Contravariant => seq![(expected, actual)],
        Variance::Invariant => seq![(actual, expected), (expected, actual)],
    }
}

/// The pairs two argument lists ask for, in order; an argument past the declared
/// parameters is invariant.
pub open spec fn variance_pairs(
    variances: Seq<Variance>,
    actual: Seq<TyV>,
    expected: Seq<TyV>,
    upto: nat,
) -> Seq<(TyV, TyV)>
    decreases upto,
{
    if upto == 0 {
        Seq::empty()
    } else {
        let i = upto - 1;
        variance_pairs(variances, actual, expected, i as nat) + argument_pairs(
            if i < variances.len() {
                variances[i]
            } else {
                Variance::Invariant
            },
            actual[i],
            expected[i],
        )
    }
}

/// The type of the first field with a name.
pub open spec fn field_type(fields: Seq<FieldV>, name: Seq<char>) -> Option<TyV>
    decreases fields.len(),
{
    if fields.len() == 0 {
        None
    } else if fields[0].name == name {
        Some(fields[0].ty)
    } else {
        field_type(fields.drop_first(), name)
    }
}

/// The pairs two records ask for: each expected field with the actual field of
/// its name. `None` where a field is missing.
pub open spec fn record_pairs(actual: Seq<FieldV>, expected: Seq<FieldV>, upto: nat) -> Option<
    Seq<(TyV, TyV)>,
>
    decreases upto,
{
    if upto == 0 {
        Some(Seq::empty())
    } else {
        let i = upto - 1;
        match (record_pairs(actual, expected, i as nat), field_type(actual, expected[i].name)) {
            (Some(pairs), Some(ty)) => Some(pairs.push((ty, expected[i].ty))),
            _ => None,
        }
    }
}

pub open spec fn with_each(left: Seq<TyV>, right: TyV) -> Seq<(TyV, TyV)> {
    Seq::new(left.len(), |i: int| (left[i], right))
}

/// What a compatibility check of two resolved types asks for: the coercions that
/// apply where a value flows into an expected type.
pub open spec fn compatible_step(table: TableV, actual: TyV, expected: TyV) -> CompatibleStepV {
    if actual is Any || actual is Unknown || expected is Any || expected is Unknown {
        CompatibleStepV::Verdict(true)
    } else if actual == expected {
        CompatibleStepV::Verdict(true)
    } else if actual is Var || expected is Var {
        CompatibleStepV::Unify(actual, expected)
    } else if table.undeclared(actual) || table.undeclared(expected) {
        CompatibleStepV::Verdict(true)
    } else {
        match (actual, expected) {
            (TyV::Union(members), _) => CompatibleStepV::Every(with_each(members, expected)),
            (_, TyV::Union(members)) => CompatibleStepV::AnyOf(
                actual,
                members.filter(|m: TyV| table.shallow(m) !is Var) + members.filter(
                    |m: TyV| table.shallow(m) is Var,
                ),
            ),
            (TyV::Named(actual_name, actual_arguments), _) => nominal_step(
                table,
                actual_name,
                actual_arguments,
                expected,
            ),
            _ => structural_step(table, actual, expected),
        }
    }
}

/// Same-name nominals check their arguments by variance; any other nominal
/// value is compatible with what its representation is.
pub open spec fn nominal_step(
    table: TableV,
    name: Seq<char>,
    arguments: Seq<TyV>,
    expected: TyV,
) -> CompatibleStepV {
    match expected {
        TyV::Named(expected_name, expected_arguments) if name == expected_name && arguments.len()
            == expected_arguments.len() => {
            let variances = match table.definition(name) {
                Some(definition) => definition.variances(),
                None => Seq::empty(),
            };
            CompatibleStepV::Every(
                variance_pairs(variances, arguments, expected_arguments, arguments.len()),
            )
        },
        _ => match table.representation(name, arguments) {
            Some(representation) => CompatibleStepV::Every(seq![(representation, expected)]),
            None => CompatibleStepV::Verdict(false),
        },
    }
}

/// The coercions between structural types.
pub open spec fn structural_step(table: TableV, actual: TyV, expected: TyV) -> CompatibleStepV {
    match (actual, expected) {
        (TyV::Scalar(_), TyV::Vector(element)) => CompatibleStepV::Every(
            seq![(actual, *element)],
        ),
        (TyV::NamedVector(own), TyV::Vector(element)) => CompatibleStepV::Every(
            seq![(*own, *element)],
        ),
        (TyV::Scalar(own), TyV::Scalar(wanted)) => CompatibleStepV::Verdict(promotes(own, wanted)),
        (TyV::Vector(own), TyV::Vector(element)) => CompatibleStepV::Every(seq![(*own, *element)]),
        (TyV::NamedVector(own), TyV::NamedVector(element)) => CompatibleStepV::Every(
            seq![(*own, *element)],
        ),
        (TyV::Tuple(own), TyV::Tuple(wanted)) => if own.len() == wanted.len() {
            CompatibleStepV::Every(zipped(own, wanted))
        } else {
            CompatibleStepV::Verdict(false)
        },
        (TyV::Record(own), TyV::Record(wanted)) => if own.len() == wanted.len() {
            match record_pairs(own, wanted, wanted.len()) {
                Some(pairs) => CompatibleStepV::Every(pairs),
                None => CompatibleStepV::Verdict(false),
            }
        } else {
            CompatibleStepV::Verdict(false)
        },
        (TyV::Tuple(items), TyV::List(element)) => if table.resolve(*element) is Var {
            CompatibleStepV::Unify(*element, TyV::union_of(items))
        } else {
            CompatibleStepV::Every(with_each(items, *element))
        },
        (TyV::Tuple(items), TyV::NamedList(_)) => CompatibleStepV::Verdict(items.len() == 0),
        (TyV::Record(fields), TyV::List(element)) => record_into_list(table, fields, *element),
        (TyV::Record(fields), TyV::NamedList(element)) => record_into_list(
            table,
            fields,
            *element,
        ),
        (TyV::NamedList(own), TyV::List(element)) => CompatibleStepV::Every(
            seq![(*own, *element)],
        ),
        (TyV::NamedList(own), TyV::NamedList(element)) => CompatibleStepV::Every(
            seq![(*own, *element)],
        ),
        (TyV::List(own), TyV::List(element)) => CompatibleStepV::Every(seq![(*own, *element)]),
        (TyV::Function(own), TyV::Function(wanted)) => match pair_parameters(*own, *wanted) {
            Some(pairing) => CompatibleStepV::Every(
                (pairing.rest + pairing.contravariant()).push((own.ret, wanted.ret)),
            ),
            None => CompatibleStepV::Verdict(false),
        },
        _ => CompatibleStepV::Verdict(false),
    }
}

pub open spec fn record_into_list(
    table: TableV,
    fields: Seq<FieldV>,
    element: TyV,
) -> CompatibleStepV {
    if table.resolve(element) is Var {
        CompatibleStepV::Unify(element, TyV::union_of(field_types(fields)))
    } else {
        CompatibleStepV::Every(with_each(field_types(fields), element))
    }
}

/// One parameter of a function and what an interface may pass to it.
pub struct ParameterPairV {
    pub name: Option<Seq<char>>,
    pub passed: TyV,
    pub accepts: TyV,
}

/// How an interface's parameters land on a function's.
pub struct PairingV {
    pub parameters: Seq<ParameterPairV>,
    pub rest: Seq<(TyV, TyV)>,
}

impl PairingV {
    /// Parameters are contravariant: what is passed must fit what is accepted.
    pub open spec fn contravariant(self) -> Seq<(TyV, TyV)> {
        Seq::new(
            self.parameters.len(),
            |i: int| (self.parameters[i].passed, self.parameters[i].accepts),
        )
    }
}

/// One formal as a slot to fill: its name where it has one, its type, and
/// whether it may stay unfilled.
pub struct SlotV {
    pub name: Option<Seq<char>>,
    pub ty: TyV,
    pub optional: bool,
}

impl FunctionV {
    /// The formals of a function, positional ones first.
    pub open spec fn slots(self) -> Seq<SlotV> {
        Seq::new(
            self.positional.len(),
            |i: int| SlotV { name: None, ty: self.positional[i], optional: false },
        ) + Seq::new(
            self.named.len(),
            |i: int|
                SlotV {
                    name: Some(self.named[i].name),
                    ty: self.named[i].ty,
                    optional: self.named[i].optional,
                },
        )
    }
}

/// The first slot with a name.
pub open spec fn slot_named(slots: Seq<SlotV>, name: Seq<char>, from: int) -> Option<int>
    decreases slots.len() - from,
{
    if 0 <= from < slots.len() {
        if slots[from].name == Some(name) {
            Some(from)
        } else {
            slot_named(slots, name, from + 1)
        }
    } else {
        None
    }
}

/// What fills a slot: a type and whether the interface may leave it out.
pub type FillV = (TyV, bool);

/// The named parameters of an interface claim the slots of their names; the
/// others, and those whose slot is taken, overflow.
pub open spec fn claim_named(
    slots: Seq<SlotV>,
    named: Seq<ParameterV>,
    from: int,
    filled: Seq<Option<FillV>>,
    overflow: Seq<FillV>,
) -> (Seq<Option<FillV>>, Seq<FillV>)
    decreases named.len() - from,
{
    if 0 <= from < named.len() {
        let fill = (named[from].ty, named[from].optional);
        match slot_named(slots, named[from].name, 0) {
            Some(i) if filled[i] is None => claim_named(
                slots,
                named,
                from + 1,
                filled.update(i, Some(fill)),
                overflow,
            ),
            _ => claim_named(slots, named, from + 1, filled, overflow.push(fill)),
        }
    } else {
        (filled, overflow)
    }
}

/// The queue fills the slots that are left, in order; the result says how much
/// of it was used.
pub open spec fn fill_in_order(
    filled: Seq<Option<FillV>>,
    queue: Seq<FillV>,
    from: int,
    used: nat,
) -> (Seq<Option<FillV>>, nat)
    decreases filled.len() - from,
{
    if 0 <= from < filled.len() {
        if filled[from] is None && used < queue.len() {
            fill_in_order(
                filled.update(from, Some(queue[used as int])),
                queue,
                from + 1,
                used + 1,
            )
        } else {
            fill_in_order(filled, queue, from + 1, used)
        }
    } else {
        (filled, used)
    }
}

/// The pairs of the filled slots. `None` where a slot that must be filled is
/// not, or where the interface may leave out what the function requires.
pub open spec fn paired_slots(
    slots: Seq<SlotV>,
    filled: Seq<Option<FillV>>,
    upto: nat,
) -> Option<Seq<ParameterPairV>>
    decreases upto,
{
    if upto == 0 {
        Some(Seq::empty())
    } else {
        let i = upto - 1;
        match paired_slots(slots, filled, i as nat) {
            None => None,
            Some(before) => match filled[i] {
                None => if slots[i].optional {
                    Some(before)
                } else {
                    None
                },
                Some((passed, may_omit)) => if may_omit && !slots[i].optional {
                    None
                } else {
                    Some(
                        before.push(
                            ParameterPairV { name: slots[i].name, passed, accepts: slots[i].ty },
                        ),
                    )
                },
            },
        }
    }
}

/// What an interface passes by position: its positional parameters, then the
/// overflow.
pub open spec fn positional_queue(expected: FunctionV, overflow: Seq<FillV>) -> Seq<FillV> {
    Seq::new(expected.positional.len(), |i: int| (expected.positional[i], false)) + overflow
}

/// How an interface's parameters land on a function's: by name where both name
/// them, otherwise by position; what is left over goes to the rest parameter.
/// `None` where the two shapes cannot pair.
pub open spec fn pair_parameters(actual: FunctionV, expected: FunctionV) -> Option<PairingV> {
    let slots = actual.slots();
    let (claimed, overflow) = claim_named(
        slots,
        expected.named,
        0,
        Seq::new(slots.len(), |i: int| None),
        Seq::empty(),
    );
    let queue = positional_queue(expected, overflow);
    let (filled, used) = fill_in_order(claimed, queue, 0, 0);
    let parameters = paired_slots(slots, filled, slots.len());
    match (actual.variadic, expected.variadic) {
        (Some(own), Some(wanted)) => if own.preceding_named != wanted.preceding_named {
            None
        } else {
            match parameters {
                Some(parameters) => Some(
                    PairingV {
                        parameters,
                        rest: seq![(wanted.element, own.element)] + Seq::new(
                            (queue.len() - used) as nat,
                            |i: int| (queue[used + i].0, own.element),
                        ),
                    },
                ),
                None => None,
            }
        },
        (None, None) => if used < queue.len() {
            None
        } else {
            match parameters {
                Some(parameters) => Some(PairingV { parameters, rest: Seq::empty() }),
                None => None,
            }
        },
        _ => None,
    }
}

/// The one position that keeps a function from serving an interface.
pub enum FunctionMismatchV {
    Parameter {
        name: Option<Seq<char>>,
        passed: TyV,
        accepts: TyV,
        constraint: Option<Constraint>,
    },
    Return { required: TyV, produces: TyV, constraint: Option<Constraint> },
}

/// The one field that keeps a record from serving a record type.
pub enum RecordMismatchV {
    Field { path: Seq<Seq<char>>, expected: TyV, found: TyV },
    Missing { path: Seq<Seq<char>>, near: Option<Seq<char>> },
    Unexpected { path: Seq<Seq<char>>, near: Option<Seq<char>> },
}

impl TableV {
    /// The first parameter that refuses what the interface passes.
    pub open spec fn explain_parameters(self, pairs: Seq<ParameterPairV>, from: int) -> (
        TableV,
        Option<FunctionMismatchV>,
    )
        decreases pairs.len() - from,
    {
        if 0 <= from < pairs.len() {
            let pair = pairs[from];
            let (table, fits) = self.compatible(pair.passed, pair.accepts);
            if fits {
                table.explain_parameters(pairs, from + 1)
            } else {
                (
                    table,
                    Some(
                        FunctionMismatchV::Parameter {
                            name: pair.name,
                            passed: table.resolve(pair.passed),
                            accepts: table.resolve(pair.accepts),
                            constraint: table.variable_constraint(table.resolve(pair.accepts)),
                        },
                    ),
                )
            }
        } else {
            (self, None)
        }
    }

    /// Why a function does not serve an interface, where one position is to
    /// blame.
    pub open spec fn explain_function(self, actual: FunctionV, expected: FunctionV) -> (
        TableV,
        Option<FunctionMismatchV>,
    ) {
        match pair_parameters(actual, expected) {
            None => (self, None),
            Some(pairing) => {
                let (table, mismatch) = self.explain_parameters(pairing.parameters, 0);
                if mismatch is Some {
                    (table, mismatch)
                } else {
                    let (after, fits) = table.compatible(actual.ret, expected.ret);
                    if fits {
                        (after, None)
                    } else {
                        (
                            after,
                            Some(
                                FunctionMismatchV::Return {
                                    required: after.resolve(expected.ret),
                                    produces: after.resolve(actual.ret),
                                    constraint: after.variable_constraint(
                                        after.resolve(actual.ret),
                                    ),
                                },
                            ),
                        )
                    }
                }
            },
        }
    }

    /// Which field keeps a record from serving a record type, below the fields
    /// on the path.
    pub open spec fn walk_record(
        self,
        actual: TyV,
        expected: TyV,
        path: Seq<Seq<char>>,
        budget: nat,
    ) -> (TableV, Option<RecordMismatchV>)
        decreases budget, 1int, 0int,
    {
        match (self.resolve(actual), self.resolve(expected)) {
            (TyV::Record(own), TyV::Record(wanted)) => self.walk_fields(
                own,
                wanted,
                0,
                path,
                budget,
            ),
            _ => (self, None),
        }
    }

    pub open spec fn walk_fields(
        self,
        own: Seq<FieldV>,
        wanted: Seq<FieldV>,
        from: int,
        path: Seq<Seq<char>>,
        budget: nat,
    ) -> (TableV, Option<RecordMismatchV>)
        decreases budget, 0int, wanted.len() - from,
    {
        if 0 <= from < wanted.len() {
            let field = wanted[from];
            let below = path.push(field.name);
            match field_type(own, field.name) {
                None => (
                    self,
                    Some(
                        RecordMismatchV::Missing {
                            path: below,
                            near: crate::diagnostics::nearest(field.name, field_names(own)),
                        },
                    ),
                ),
                Some(ty) => {
                    let (table, fits) = self.compatible(ty, field.ty);
                    if fits {
                        table.walk_fields(own, wanted, from + 1, path, budget)
                    } else {
                        let (after, inner) = if budget == 0 {
                            (table, None)
                        } else {
                            table.walk_record(ty, field.ty, below, (budget - 1) as nat)
                        };
                        if inner is Some {
                            (after, inner)
                        } else {
                            (
                                after,
                                Some(
                                    RecordMismatchV::Field {
                                        path: below,
                                        expected: after.resolve(field.ty),
                                        found: after.resolve(ty),
                                    },
                                ),
                            )
                        }
                    }
                },
            }
        } else {
            (self, surplus_field(own, wanted, 0, path))
        }
    }

    /// Which field keeps a record from serving a record type. Asking changes
    /// nothing.
    pub open spec fn explain_record(self, actual: TyV, expected: TyV) -> Option<RecordMismatchV> {
        self.walk_record(actual, expected, Seq::empty(), usize::MAX as nat).1
    }
}

pub open spec fn field_names(fields: Seq<FieldV>) -> Seq<Seq<char>> {
    Seq::new(fields.len(), |i: int| fields[i].name)
}

/// The first field that the expected type does not declare.
pub open spec fn surplus_field(
    own: Seq<FieldV>,
    wanted: Seq<FieldV>,
    from: int,
    path: Seq<Seq<char>>,
) -> Option<RecordMismatchV>
    decreases own.len() - from,
{
    if 0 <= from < own.len() {
        if field_type(wanted, own[from].name) is Some {
            surplus_field(own, wanted, from + 1, path)
        } else {
            Some(
                RecordMismatchV::Unexpected {
                    path: path.push(own[from].name),
                    near: crate::diagnostics::nearest(own[from].name, field_names(wanted)),
                },
            )
        }
    } else {
        None
    }
}

/// Rolling back looks only at the entries the snapshot keeps.
pub proof fn rolled_back_keeps_prefix(a: TableV, b: TableV, to: SnapshotV)
    requires
        a.undo == b.undo,
        a.level == b.level,
        a.binders == b.binders,
        a.vocabulary == b.vocabulary,
        to.entries <= a.entries.len(),
        to.entries <= b.entries.len(),
        a.entries.subrange(0, to.entries as int) == b.entries.subrange(0, to.entries as int),
    ensures
        a.rolled_back(to) == b.rolled_back(to),
    decreases a.undo.len(),
{
    if a.undo.len() <= to.undo || a.undo.len() == 0 {
    } else {
        let (var, previous) = a.undo.last();
        let next_a = TableV {
            entries: if var.0 < to.entries && a.holds(var) {
                a.entries.update(var.0 as int, previous)
            } else {
                a.entries
            },
            undo: a.undo.drop_last(),
            ..a
        };
        let next_b = TableV {
            entries: if var.0 < to.entries && b.holds(var) {
                b.entries.update(var.0 as int, previous)
            } else {
                b.entries
            },
            undo: b.undo.drop_last(),
            ..b
        };
        assert forall|i: int| 0 <= i < to.entries implies next_a.entries[i] == next_b.entries[i] by {
            assert(a.entries.subrange(0, to.entries as int)[i] == a.entries[i]);
            assert(b.entries.subrange(0, to.entries as int)[i] == b.entries[i]);
        }
        assert(next_a.entries.subrange(0, to.entries as int) =~= next_b.entries.subrange(
            0,
            to.entries as int,
        ));
        rolled_back_keeps_prefix(next_a, next_b, to);
    }
}

/// Rolling back in two steps is rolling back at once.
pub proof fn rolled_back_in_steps(table: TableV, mid: SnapshotV, to: SnapshotV)
    requires
        to.entries <= mid.entries <= table.entries.len(),
        to.undo <= mid.undo,
    ensures
        table.rolled_back(mid).rolled_back(to) == table.rolled_back(to),
    decreases table.undo.len(),
{
    if table.undo.len() <= mid.undo || table.undo.len() == 0 {
        let cut = table.rolled_back(mid);
        assert(cut.entries.subrange(0, to.entries as int) =~= table.entries.subrange(
            0,
            to.entries as int,
        ));
        rolled_back_keeps_prefix(cut, table, to);
    } else {
        let (var, previous) = table.undo.last();
        let next = TableV {
            entries: if var.0 < mid.entries && table.holds(var) {
                table.entries.update(var.0 as int, previous)
            } else {
                table.entries
            },
            undo: table.undo.drop_last(),
            ..table
        };
        let next_to = TableV {
            entries: if var.0 < to.entries && table.holds(var) {
                table.entries.update(var.0 as int, previous)
            } else {
                table.entries
            },
            undo: table.undo.drop_last(),
            ..table
        };
        rolled_back_in_steps(next, mid, to);
        assert(next.entries.subrange(0, to.entries as int) =~= next_to.entries.subrange(
            0,
            to.entries as int,
        ));
        rolled_back_keeps_prefix(next, next_to, to);
        assert(table.rolled_back(mid) == next.rolled_back(mid));
        assert(table.rolled_back(to) == next_to.rolled_back(to));
    }
}

pub broadcast proof fn grown_from_itself(table: TableV)
    ensures
        #[trigger] table.grown_from(table),
{
    assert(table.entries.subrange(0, table.entries.len() as int) =~= table.entries);
}

pub broadcast proof fn grown_in_steps(last: TableV, mid: TableV, first: TableV)
    requires
        #[trigger] last.grown_from(mid),
        #[trigger] mid.grown_from(first),
    ensures
        last.grown_from(first),
{
    rolled_back_in_steps(last, mid.snapshot(), first.snapshot());
}

pub broadcast proof fn grown_by_set(table: TableV, var: InferenceVar, entry: EntryV)
    requires
        table.holds(var),
    ensures
        #[trigger] table.set(var, entry).grown_from(table),
{
    let next = table.set(var, entry);
    assert(next.undo.drop_last() =~= table.undo);
    assert(next.entries.update(var.0 as int, table.entries[var.0 as int]) =~= table.entries);
    grown_from_itself(table);
}

pub broadcast proof fn grown_by_fresh(table: TableV, constraint: Constraint)
    ensures
        #[trigger] table.with_fresh(constraint).grown_from(table),
{
    let next = table.with_fresh(constraint);
    assert(next.entries.subrange(0, table.entries.len() as int) =~= table.entries);
}

/// Whatever was done to a table since a snapshot, rolling back leaves no trace.
pub proof fn rollback_restores(before: TableV, after: TableV)
    requires
        after.grown_from(before),
    ensures
        after.rolled_back(before.snapshot()) == before,
{
}

} // verus!
