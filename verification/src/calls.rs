//! Calls: matching arguments to formals, checking them, and choosing among
//! overloads. Arguments are inferred before any of this, so a call can be matched
//! against several signatures without inferring anything twice.

use vstd::prelude::*;

use crate::checking;
use crate::diagnostics;
use crate::findings;
use crate::findings::{TypeErrorKindV, TypeErrorV};
use crate::hir;
use crate::hir::{ExprId, Module};
use crate::syntax::TextRange;
use crate::table;
use crate::table::{EntryV, TableV};
use crate::types;
use crate::types::{Atomic, Constraint, FunctionV, ParameterV, Ty, TyV};

verus! {

broadcast use {
    crate::types::group_type_views,
    crate::table::grown_from_itself,
    crate::table::grown_in_steps,
};

/// One call argument, inferred.
#[derive(Debug)]
pub struct CallArgument {
    pub name: Option<String>,
    /// The range of the name.
    pub name_range: Option<TextRange>,
    /// `None` is a positional hole.
    pub ty: Option<Ty>,
    pub range: TextRange,
    /// The expression the value comes from.
    pub value: Option<ExprId>,
    /// Whether the argument is a whole-number double literal.
    pub whole_double: bool,
    /// Whether the argument is a bare `...`: it forwards an unknown number of
    /// arguments and matches no formal itself.
    pub forwards_dots: bool,
}

/// The model of a call argument.
pub struct CallArgumentV {
    pub name: Option<Seq<char>>,
    pub name_range: Option<TextRange>,
    pub ty: Option<TyV>,
    pub range: TextRange,
    pub value: Option<ExprId>,
    pub whole_double: bool,
    pub forwards_dots: bool,
}

impl CallArgument {
    pub open spec fn view(&self) -> CallArgumentV {
        CallArgumentV {
            name: types::opt_text(self.name),
            name_range: self.name_range,
            ty: types::opt_ty(self.ty),
            range: self.range,
            value: self.value,
            whole_double: self.whole_double,
            forwards_dots: self.forwards_dots,
        }
    }
}

pub open spec fn arguments_view(arguments: Seq<CallArgument>) -> Seq<CallArgumentV> {
    Seq::new(arguments.len(), |i: int| arguments[i]@)
}

/// Whether the values of a list of arguments stand in a module.
pub open spec fn values_held(m: Module, arguments: Seq<CallArgumentV>) -> bool {
    forall|i: int|
        #![trigger arguments[i]]
        0 <= i < arguments.len() ==> hir::opt_below(
            arguments[i].value,
            m.expressions@.len() as int,
        )
}

/// Where the matcher sends one argument.
#[derive(Debug, Clone, Copy, PartialEq, Eq, Structural)]
pub enum ArgumentTarget {
    /// A positional formal.
    Positional(usize),
    /// A named formal, claimed by name or filled by position.
    Named(usize),
    /// The rest parameter.
    Rest,
    /// A name that no formal has left, where nothing absorbs it.
    UnmatchedName,
    /// A positional argument with nowhere to go.
    Overflow,
}

pub type TargetsV = Seq<Option<ArgumentTarget>>;

/// The first formal of a name that is not claimed.
pub open spec fn unclaimed_formal(
    named: Seq<ParameterV>,
    name: Seq<char>,
    claimed: Seq<bool>,
    from: int,
) -> Option<int>
    decreases named.len() - from,
{
    if 0 <= from < named.len() {
        if named[from].name == name && !claimed[from] {
            Some(from)
        } else {
            unclaimed_formal(named, name, claimed, from + 1)
        }
    } else {
        None
    }
}

/// The first pass: names claim their formals.
pub open spec fn claim_by_name(
    named: Seq<ParameterV>,
    arguments: Seq<CallArgumentV>,
    from: int,
    claimed: Seq<bool>,
    targets: TargetsV,
) -> (Seq<bool>, TargetsV)
    decreases arguments.len() - from,
{
    if 0 <= from < arguments.len() {
        let claim = if arguments[from].forwards_dots {
            None
        } else {
            match arguments[from].name {
                Some(name) => unclaimed_formal(named, name, claimed, 0),
                None => None,
            }
        };
        match claim {
            Some(formal) => claim_by_name(
                named,
                arguments,
                from + 1,
                claimed.update(formal, true),
                targets.push(Some(ArgumentTarget::Named(formal as usize))),
            ),
            None => claim_by_name(named, arguments, from + 1, claimed, targets.push(None)),
        }
    } else {
        (claimed, targets)
    }
}

/// The first formal from one on that is not claimed.
pub open spec fn open_formal(claimed: Seq<bool>, from: int, to: int) -> int
    decreases to - from,
{
    if from < to && claimed[from] {
        open_formal(claimed, from + 1, to)
    } else {
        from
    }
}

pub open spec fn is_formal_name(named: Seq<ParameterV>, name: Seq<char>) -> bool {
    exists|i: int| 0 <= i < named.len() && (#[trigger] named[i]).name == name
}

/// How many named formals positional arguments can reach.
pub open spec fn reachable_formals(function: FunctionV) -> int {
    match function.variadic {
        Some(rest) => if rest.preceding_named < function.named.len() {
            rest.preceding_named as int
        } else {
            function.named.len() as int
        },
        None => function.named.len() as int,
    }
}

/// Where an argument whose name claimed nothing goes, and the formals used up
/// after it.
pub open spec fn place(
    function: FunctionV,
    argument: CallArgumentV,
    claimed: Seq<bool>,
    next_positional: int,
    next_named: int,
) -> (ArgumentTarget, Seq<bool>, int, int) {
    match argument.name {
        Some(name) => if function.variadic is Some && !is_formal_name(function.named, name) {
            (ArgumentTarget::Rest, claimed, next_positional, next_named)
        } else {
            (ArgumentTarget::UnmatchedName, claimed, next_positional, next_named)
        },
        None => if next_positional < function.positional.len() {
            (
                ArgumentTarget::Positional(next_positional as usize),
                claimed,
                next_positional + 1,
                next_named,
            )
        } else {
            let formal = open_formal(claimed, next_named, reachable_formals(function));
            if formal < reachable_formals(function) {
                (
                    ArgumentTarget::Named(formal as usize),
                    claimed.update(formal, true),
                    next_positional,
                    formal + 1,
                )
            } else if function.variadic is Some {
                (ArgumentTarget::Rest, claimed, next_positional, formal)
            } else {
                (ArgumentTarget::Overflow, claimed, next_positional, formal)
            }
        },
    }
}

/// The second pass: the other arguments fill the formals in order.
pub open spec fn place_rest(
    function: FunctionV,
    arguments: Seq<CallArgumentV>,
    from: int,
    claimed: Seq<bool>,
    targets: TargetsV,
    next_positional: int,
    next_named: int,
) -> TargetsV
    decreases arguments.len() - from,
{
    if 0 <= from < arguments.len() {
        if arguments[from].forwards_dots || targets[from] is Some {
            place_rest(
                function,
                arguments,
                from + 1,
                claimed,
                targets,
                next_positional,
                next_named,
            )
        } else {
            let (target, used, positional, named) = place(
                function,
                arguments[from],
                claimed,
                next_positional,
                next_named,
            );
            place_rest(
                function,
                arguments,
                from + 1,
                used,
                targets.update(from, Some(target)),
                positional,
                named,
            )
        }
    } else {
        targets
    }
}

/// Where each argument goes. An exact name claims its formal before any
/// positional argument is placed; positional arguments then fill the fixed
/// formals and the unclaimed named ones before the rest parameter, which takes
/// what is left. An argument that forwards `...` goes nowhere.
pub open spec fn targets_of(function: FunctionV, arguments: Seq<CallArgumentV>) -> TargetsV {
    let (claimed, targets) = claim_by_name(
        function.named,
        arguments,
        0,
        Seq::new(function.named.len(), |i: int| false),
        Seq::empty(),
    );
    place_rest(function, arguments, 0, claimed, targets, 0, 0)
}

/// The places of the arguments the rest parameter takes.
pub open spec fn forwarded(targets: TargetsV, upto: nat) -> Seq<int>
    decreases upto,
{
    if upto == 0 {
        Seq::empty()
    } else {
        let before = forwarded(targets, (upto - 1) as nat);
        if targets[upto - 1] == Some(ArgumentTarget::Rest) {
            before.push(upto - 1)
        } else {
            before
        }
    }
}

pub open spec fn any_forwards(arguments: Seq<CallArgumentV>) -> bool {
    exists|i: int| 0 <= i < arguments.len() && (#[trigger] arguments[i]).forwards_dots
}

/// Whether an argument goes to a named formal.
pub open spec fn is_supplied(targets: TargetsV, formal: int) -> bool {
    exists|i: int|
        0 <= i < targets.len() && #[trigger] targets[i] == Some(
            ArgumentTarget::Named(formal as usize),
        )
}

pub open spec fn is_positional(target: Option<ArgumentTarget>) -> bool {
    match target {
        Some(ArgumentTarget::Positional(_)) => true,
        _ => false,
    }
}

/// How many of the first targets are positional formals.
pub open spec fn positional_filled(targets: TargetsV, upto: nat) -> nat
    decreases upto,
{
    if upto == 0 {
        0
    } else {
        let before = positional_filled(targets, (upto - 1) as nat);
        if is_positional(targets[upto - 1]) {
            before + 1
        } else {
            before
        }
    }
}

/// Whether a named formal that must be given is not.
pub open spec fn misses_required(named: Seq<ParameterV>, targets: TargetsV) -> bool {
    exists|i: int|
        0 <= i < named.len() && !(#[trigger] named[i]).optional && !is_supplied(targets, i)
}

/// How many of the first named formals must be given.
pub open spec fn required_named(named: Seq<ParameterV>, upto: nat) -> nat
    decreases upto,
{
    if upto == 0 {
        0
    } else {
        let before = required_named(named, (upto - 1) as nat);
        if named[upto - 1].optional {
            before
        } else {
            before + 1
        }
    }
}

pub open spec fn formal_names(named: Seq<ParameterV>) -> Seq<Seq<char>> {
    Seq::new(named.len(), |i: int| named[i].name)
}

/// A name that no formal has left.
pub open spec fn name_mismatch(function: FunctionV, name: Seq<char>) -> TypeErrorKindV {
    let names = formal_names(function.named);
    TypeErrorKindV::NamedArgumentMismatch {
        argument: name,
        duplicate: names.contains(name),
        suggestion: diagnostics::nearest(name, names),
        expected_parameters: names,
    }
}

/// How arguments are checked: against which module, and whether a whole-number
/// double literal is refused as an integer.
pub struct CallSiteV {
    pub module: Module,
    pub strict: bool,
}

/// The formals of a callback that an invocation has not filled.
pub struct OpenFormalsV {
    pub positional: Seq<TyV>,
    pub named: Seq<ParameterV>,
    /// How many of the named ones stand before the rest parameter.
    pub pre_rest: int,
}

/// One value that fills a formal of a callback.
pub struct FilledV {
    pub ty: Option<TyV>,
    pub range: TextRange,
    pub whole_double: bool,
}

/// The first formal of a name.
pub open spec fn formal_at(named: Seq<ParameterV>, name: Seq<char>, from: int) -> Option<int>
    decreases named.len() - from,
{
    if 0 <= from < named.len() {
        if named[from].name == name {
            Some(from)
        } else {
            formal_at(named, name, from + 1)
        }
    } else {
        None
    }
}

impl TableV {
    /// Whether a resolved type is a variable that must be numeric.
    pub open spec fn is_numeric_var(self, ty: TyV) -> bool {
        match ty {
            TyV::Var(var) => {
                let root = self.find(var);
                self.holds(root) && match self.entries[root.0 as int] {
                    EntryV::Unbound { constraint, .. } => constraint == Constraint::Numeric,
                    _ => false,
                }
            },
            _ => false,
        }
    }

    /// One argument against one formal's type: by compatibility, so coercions
    /// apply. An unknown argument fits. A whole-number double literal counts as
    /// an integer, unless the site is strict.
    pub open spec fn check_argument(
        self,
        site: CallSiteV,
        expected: TyV,
        found: TyV,
        range: TextRange,
        whole_double: bool,
        value: Option<ExprId>,
    ) -> (TableV, Option<TypeErrorV>) {
        let resolved = self.resolve(found);
        let (after, fits) = self.compatible(resolved, expected);
        let (courtesy, as_integer) = self.compatible(TyV::Scalar(Atomic::Integer), expected);
        if resolved is Unknown {
            (self, None)
        } else if fits {
            (after, None)
        } else if !site.strict && resolved == TyV::Scalar(Atomic::Double) && whole_double
            && as_integer {
            (courtesy, None)
        } else {
            self.argument_refused(site, expected, resolved, range, value)
        }
    }

    /// Why an argument does not fit.
    pub open spec fn argument_refused(
        self,
        site: CallSiteV,
        expected: TyV,
        found: TyV,
        range: TextRange,
        value: Option<ExprId>,
    ) -> (TableV, Option<TypeErrorV>) {
        let wanted = self.resolve(expected);
        if self.is_numeric_var(wanted) {
            (
                self,
                Some(
                    TypeErrorV {
                        range,
                        kind: TypeErrorKindV::ConstraintViolation {
                            constraint: Constraint::Numeric,
                            found,
                        },
                    },
                ),
            )
        } else {
            match (found, wanted) {
                (TyV::Function(own), TyV::Function(interface)) => {
                    let (after, mismatch) = self.explain_function(*own, *interface);
                    match mismatch {
                        Some(mismatch) => (
                            after,
                            Some(
                                TypeErrorV {
                                    range,
                                    kind: TypeErrorKindV::CallbackShape { mismatch },
                                },
                            ),
                        ),
                        None => (
                            after,
                            Some(
                                checking::type_mismatch(
                                    after,
                                    site.module,
                                    range,
                                    wanted,
                                    found,
                                    value,
                                ),
                            ),
                        ),
                    }
                },
                _ => (
                    self,
                    Some(
                        checking::type_mismatch(self, site.module, range, wanted, found, value),
                    ),
                ),
            }
        }
    }

    /// Whether a value that may be absent fits a formal.
    pub open spec fn admits_filled(
        self,
        site: CallSiteV,
        formal: TyV,
        filled: FilledV,
    ) -> Option<TableV> {
        match filled.ty {
            Some(ty) => {
                let (after, error) = self.check_argument(
                    site,
                    formal,
                    ty,
                    filled.range,
                    filled.whole_double,
                    None,
                );
                if error is None {
                    Some(after)
                } else {
                    None
                }
            },
            None => Some(self),
        }
    }

    /// Forwarded named arguments take the callback's formals of their names, or
    /// go to its rest parameter. The forwarded positional ones are left.
    pub open spec fn forward_named(
        self,
        site: CallSiteV,
        arguments: Seq<CallArgumentV>,
        places: Seq<int>,
        from: int,
        open: OpenFormalsV,
        rest: Option<TyV>,
        positionals: Seq<FilledV>,
    ) -> Option<(TableV, OpenFormalsV, Seq<FilledV>)>
        decreases places.len() - from,
    {
        if 0 <= from < places.len() {
            let argument = arguments[places[from]];
            let filled = FilledV {
                ty: argument.ty,
                range: argument.range,
                whole_double: argument.whole_double,
            };
            match argument.name {
                None => self.forward_named(
                    site,
                    arguments,
                    places,
                    from + 1,
                    open,
                    rest,
                    positionals.push(filled),
                ),
                Some(name) => match formal_at(open.named, name, 0) {
                    Some(at) => match self.admits_filled(site, open.named[at].ty, filled) {
                        Some(after) => after.forward_named(
                            site,
                            arguments,
                            places,
                            from + 1,
                            OpenFormalsV {
                                positional: open.positional,
                                named: open.named.remove(at),
                                pre_rest: if at < open.pre_rest {
                                    open.pre_rest - 1
                                } else {
                                    open.pre_rest
                                },
                            },
                            rest,
                            positionals,
                        ),
                        None => None,
                    },
                    None => match rest {
                        Some(element) => match self.admits_filled(site, element, filled) {
                            Some(after) => after.forward_named(
                                site,
                                arguments,
                                places,
                                from + 1,
                                open,
                                rest,
                                positionals,
                            ),
                            None => None,
                        },
                        None => None,
                    },
                },
            }
        } else {
            Some((self, open, positionals))
        }
    }

    /// Values fill the open formals in order, then the rest parameter.
    pub open spec fn fill_open(
        self,
        site: CallSiteV,
        values: Seq<FilledV>,
        from: int,
        open: OpenFormalsV,
        rest: Option<TyV>,
    ) -> Option<(TableV, OpenFormalsV)>
        decreases values.len() - from,
    {
        if 0 <= from < values.len() {
            if open.positional.len() > 0 {
                match self.admits_filled(site, open.positional[0], values[from]) {
                    Some(after) => after.fill_open(
                        site,
                        values,
                        from + 1,
                        OpenFormalsV { positional: open.positional.remove(0), ..open },
                        rest,
                    ),
                    None => None,
                }
            } else if open.pre_rest > 0 {
                match self.admits_filled(site, open.named[0].ty, values[from]) {
                    Some(after) => after.fill_open(
                        site,
                        values,
                        from + 1,
                        OpenFormalsV {
                            named: open.named.remove(0),
                            pre_rest: open.pre_rest - 1,
                            ..open
                        },
                        rest,
                    ),
                    None => None,
                }
            } else {
                match rest {
                    Some(element) => match self.admits_filled(site, element, values[from]) {
                        Some(after) => after.fill_open(site, values, from + 1, open, rest),
                        None => None,
                    },
                    None => None,
                }
            }
        } else {
            Some((self, open))
        }
    }

    /// A callback invoked with the types its interface passes and the arguments
    /// the call forwards to it: named ones first, then the interface's types and
    /// the forwarded positional ones in order. Formals left over must be
    /// optional, and the result must fit the interface's.
    pub open spec fn invoke_callback(
        self,
        site: CallSiteV,
        interface: FunctionV,
        callback: FunctionV,
        places: Seq<int>,
        arguments: Seq<CallArgumentV>,
        range: TextRange,
    ) -> Option<TableV> {
        let rest = match callback.variadic {
            Some(rest) => Some(rest.element),
            None => None,
        };
        let start = OpenFormalsV {
            positional: callback.positional,
            named: callback.named,
            pre_rest: reachable_formals(callback),
        };
        match self.forward_named(site, arguments, places, 0, start, rest, Seq::empty()) {
            None => None,
            Some((named_done, open, positionals)) => match named_done.fill_open(
                site,
                passed_by(interface, range) + positionals,
                0,
                open,
                rest,
            ) {
                None => None,
                Some((filled, left)) => if left.positional.len() > 0 || !all_optional(left.named) {
                    None
                } else {
                    let (after, fits) = filled.compatible(callback.ret, interface.ret);
                    if fits {
                        Some(after)
                    } else {
                        None
                    }
                },
            },
        }
    }

    /// Whether a callback that does not fit its interface fits it together with
    /// the arguments the call forwards.
    pub open spec fn forwarding_probe(
        self,
        site: CallSiteV,
        expected: TyV,
        actual: TyV,
        places: Seq<int>,
        arguments: Seq<CallArgumentV>,
        range: TextRange,
    ) -> Option<TableV> {
        match (self.resolve(expected), self.resolve(actual)) {
            (TyV::Function(interface), TyV::Function(callback)) => self.invoke_callback(
                site,
                *interface,
                *callback,
                places,
                arguments,
                range,
            ),
            _ => None,
        }
    }

    /// What one argument's target finds wrong with it.
    pub open spec fn check_target(
        self,
        site: CallSiteV,
        function: FunctionV,
        arguments: Seq<CallArgumentV>,
        places: Seq<int>,
        argument: CallArgumentV,
        target: Option<ArgumentTarget>,
    ) -> (TableV, Option<TypeErrorV>) {
        match target {
            Some(ArgumentTarget::Positional(slot)) => if slot < function.positional.len() {
                self.check_given(site, function.positional[slot as int], argument)
            } else {
                (self, None)
            },
            Some(ArgumentTarget::Named(formal)) => if formal < function.named.len() {
                let expected = function.named[formal as int].ty;
                let (after, error) = self.check_given(site, expected, argument);
                match (error, argument.ty) {
                    (Some(_), Some(ty)) => match after.forwarding_probe(
                        site,
                        expected,
                        ty,
                        places,
                        arguments,
                        argument.range,
                    ) {
                        Some(probed) => (probed, None),
                        None => (after, error),
                    },
                    _ => (after, error),
                }
            } else {
                (self, None)
            },
            Some(ArgumentTarget::Rest) => match function.variadic {
                Some(rest) => self.check_given(site, rest.element, argument),
                None => (self, None),
            },
            _ => (self, None),
        }
    }

    /// An argument against a formal's type, where it has a value.
    pub open spec fn check_given(
        self,
        site: CallSiteV,
        expected: TyV,
        argument: CallArgumentV,
    ) -> (TableV, Option<TypeErrorV>) {
        match argument.ty {
            Some(ty) => self.check_argument(
                site,
                expected,
                ty,
                argument.range,
                argument.whole_double,
                argument.value,
            ),
            None => (self, None),
        }
    }

    /// The findings of the arguments from one on; an argument with nowhere to go
    /// is the only finding.
    pub open spec fn check_targets(
        self,
        site: CallSiteV,
        function: FunctionV,
        arguments: Seq<CallArgumentV>,
        targets: TargetsV,
        places: Seq<int>,
        from: int,
        findings: Seq<TypeErrorV>,
    ) -> (TableV, Result<Seq<TypeErrorV>, TypeErrorV>)
        decreases arguments.len() - from,
    {
        if 0 <= from < arguments.len() {
            if targets[from] == Some(ArgumentTarget::Overflow) && !any_forwards(arguments) {
                (
                    self,
                    Err(
                        TypeErrorV {
                            range: arguments[from].range,
                            kind: TypeErrorKindV::ArityMismatch {
                                expected: (function.positional.len()
                                    + function.named.len()) as usize,
                                found: arguments.len() as usize,
                            },
                        },
                    ),
                )
            } else {
                let (after, error) = self.check_target(
                    site,
                    function,
                    arguments,
                    places,
                    arguments[from],
                    targets[from],
                );
                after.check_targets(
                    site,
                    function,
                    arguments,
                    targets,
                    places,
                    from + 1,
                    match error {
                        Some(error) => findings.push(error),
                        None => findings,
                    },
                )
            }
        } else {
            (self, Ok(findings))
        }
    }

    /// Formals that the call leaves out hold their defaults.
    pub open spec fn fill_defaults(self, named: Seq<ParameterV>, targets: TargetsV, from: int) -> TableV
        decreases named.len() - from,
    {
        if 0 <= from < named.len() {
            (match named[from].default {
                Some(default) => if is_supplied(targets, from) {
                    self
                } else {
                    self.unify(named[from].ty, default).0
                },
                None => self,
            }).fill_defaults(named, targets, from + 1)
        } else {
            self
        }
    }

    /// The findings of a call against a signature, in argument order: none where
    /// the call matches. A call of the wrong shape has no finding but that: the
    /// names that no formal has, or else its arity, unless `...` is forwarded.
    pub open spec fn match_arguments(
        self,
        site: CallSiteV,
        callee_range: TextRange,
        function: FunctionV,
        arguments: Seq<CallArgumentV>,
    ) -> (TableV, Seq<TypeErrorV>) {
        let targets = targets_of(function, arguments);
        let (checked, outcome) = self.check_targets(
            site,
            function,
            arguments,
            targets,
            forwarded(targets, targets.len()),
            0,
            Seq::empty(),
        );
        let forwards = any_forwards(arguments);
        match outcome {
            Err(error) => (checked, seq![error]),
            Ok(findings) => {
                let filled = if forwards {
                    checked
                } else {
                    checked.fill_defaults(function.named, targets, 0)
                };
                let unmatched = unmatched_names(function, arguments, targets, arguments.len());
                if unmatched.len() > 0 {
                    (filled, unmatched)
                } else if !forwards && (positional_filled(targets, targets.len())
                    != function.positional.len() || misses_required(function.named, targets)) {
                    (
                        filled,
                        seq![
                            TypeErrorV {
                                range: callee_range,
                                kind: TypeErrorKindV::ArityMismatch {
                                    expected: (function.positional.len() + required_named(
                                        function.named,
                                        function.named.len(),
                                    )) as usize,
                                    found: arguments.len() as usize,
                                },
                            },
                        ],
                    )
                } else {
                    (filled, findings)
                }
            },
        }
    }
}

/// The findings of those of the first arguments that have a name which no formal
/// has left.
pub open spec fn unmatched_names(
    function: FunctionV,
    arguments: Seq<CallArgumentV>,
    targets: TargetsV,
    upto: nat,
) -> Seq<TypeErrorV>
    decreases upto,
{
    if upto == 0 {
        Seq::empty()
    } else {
        let before = unmatched_names(function, arguments, targets, (upto - 1) as nat);
        let argument = arguments[upto - 1];
        match (targets[upto - 1], argument.name) {
            (Some(ArgumentTarget::UnmatchedName), Some(name)) => before.push(
                TypeErrorV {
                    range: match argument.name_range {
                        Some(range) => range,
                        None => argument.range,
                    },
                    kind: name_mismatch(function, name),
                },
            ),
            _ => before,
        }
    }
}

pub open spec fn all_optional(named: Seq<ParameterV>) -> bool {
    forall|i: int| 0 <= i < named.len() ==> (#[trigger] named[i]).optional
}

/// The values an interface passes to its callback.
pub open spec fn passed_by(interface: FunctionV, range: TextRange) -> Seq<FilledV> {
    Seq::new(
        interface.positional.len() + interface.named.len(),
        |i: int|
            FilledV {
                ty: Some(
                    if i < interface.positional.len() {
                        interface.positional[i]
                    } else {
                        interface.named[i - interface.positional.len()].ty
                    },
                ),
                range,
                whole_double: false,
            },
    )
}

/// An argument of unknown type is accepted, whatever is expected, and binds
/// nothing: its cause was reported where it became unknown.
pub proof fn unknown_arguments_are_accepted(
    t: TableV,
    site: CallSiteV,
    expected: TyV,
    range: TextRange,
    whole_double: bool,
    value: Option<ExprId>,
)
    ensures
        t.check_argument(site, expected, TyV::Unknown, range, whole_double, value) == (t, None::<
            TypeErrorV,
        >),
{
    assert(t.resolve_children(TyV::Unknown, Seq::empty()) =~= Seq::empty());
}

} // verus!
