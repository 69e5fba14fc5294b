//! The argument matcher over inferred arguments.

use vstd::prelude::*;

use crate::blame;
use crate::calls;
use crate::calls::{ArgumentTarget, CallArgument, CallSiteV, FilledV, OpenFormalsV};
use crate::diagnostics::nearest_field_name;
use crate::findings;
use crate::findings::{TypeError, TypeErrorKind, TypeErrorV};
use crate::hir;
use crate::hir::{ExprId, Module};
use crate::infer::{contains_text, Entry, InferenceTable};
use crate::syntax::TextRange;
use crate::table;
use crate::text::same_text;
use crate::type_ops::{clone_opt_ty, clone_params, clone_types, scalar};
use crate::types;
use crate::types::{Atomic, Constraint, FunctionType, Parameter, Ty, TyKind};

verus! {

broadcast use {
    crate::types::group_type_views,
    crate::table::grown_from_itself,
    crate::table::grown_in_steps,
};

/// How arguments are checked.
#[derive(Debug, Clone, Copy)]
pub struct CallSite<'a> {
    pub module: &'a Module,
    /// Whether a whole-number double literal is refused as an integer.
    pub strict: bool,
}

impl<'a> CallSite<'a> {
    pub open spec fn view(&self) -> CallSiteV {
        CallSiteV { module: *self.module, strict: self.strict }
    }
}

/// The model of an optional finding.
pub open spec fn opt_error(error: Option<TypeError>) -> Option<TypeErrorV> {
    match error {
        Some(error) => Some(error@),
        None => None,
    }
}

fn unclaimed_formal(named: &Vec<Parameter>, name: &str, claimed: &Vec<bool>) -> (r: Option<usize>)
    requires
        claimed@.len() == named@.len(),
    ensures
        match r {
            Some(i) => i < named@.len() && calls::unclaimed_formal(
                types::params_view(named@),
                name@,
                claimed@,
                0,
            ) == Some(i as int),
            None => calls::unclaimed_formal(types::params_view(named@), name@, claimed@, 0) is None,
        },
{
    let mut i: usize = 0;
    while i < named.len()
        invariant
            i <= named.len(),
            claimed@.len() == named@.len(),
            calls::unclaimed_formal(types::params_view(named@), name@, claimed@, 0)
                == calls::unclaimed_formal(
                types::params_view(named@),
                name@,
                claimed@,
                i as int,
            ),
        decreases named.len() - i,
    {
        if same_text(named[i].name.text(), name) && !claimed[i] {
            return Some(i);
        }
        i += 1;
    }
    None
}

fn claim_by_name(
    named: &Vec<Parameter>,
    arguments: &Vec<CallArgument>,
    claimed: &mut Vec<bool>,
) -> (r: Vec<Option<ArgumentTarget>>)
    requires
        old(claimed)@.len() == named@.len(),
    ensures
        final(claimed)@.len() == named@.len(),
        r@.len() == arguments@.len(),
        (final(claimed)@, r@) == calls::claim_by_name(
            types::params_view(named@),
            calls::arguments_view(arguments@),
            0,
            old(claimed)@,
            Seq::empty(),
        ),
{
    let mut targets: Vec<Option<ArgumentTarget>> = Vec::new();
    let mut i: usize = 0;
    assert(targets@ =~= Seq::empty());
    while i < arguments.len()
        invariant
            i <= arguments.len(),
            claimed@.len() == named@.len(),
            targets@.len() == i,
            calls::claim_by_name(
                types::params_view(named@),
                calls::arguments_view(arguments@),
                i as int,
                claimed@,
                targets@,
            ) == calls::claim_by_name(
                types::params_view(named@),
                calls::arguments_view(arguments@),
                0,
                old(claimed)@,
                Seq::empty(),
            ),
        decreases arguments.len() - i,
    {
        assert(calls::arguments_view(arguments@)[i as int] == arguments@[i as int]@);
        let claim: Option<usize> = if arguments[i].forwards_dots {
            None
        } else {
            match &arguments[i].name {
                Some(name) => unclaimed_formal(named, name.as_str(), claimed),
                None => None,
            }
        };
        match claim {
            Some(formal) => {
                claimed.set(formal, true);
                targets.push(Some(ArgumentTarget::Named(formal)));
            },
            None => {
                targets.push(None);
            },
        }
        i += 1;
    }
    targets
}

fn is_formal_name(named: &Vec<Parameter>, name: &str) -> (r: bool)
    ensures
        r == calls::is_formal_name(types::params_view(named@), name@),
{
    let mut i: usize = 0;
    while i < named.len()
        invariant
            i <= named.len(),
            forall|j: int| 0 <= j < i ==> (#[trigger] types::params_view(named@)[j]).name != name@,
        decreases named.len() - i,
    {
        assert(types::params_view(named@)[i as int].name == named@[i as int].name@);
        if same_text(named[i].name.text(), name) {
            return true;
        }
        i += 1;
    }
    false
}

fn reachable_formals(function: &FunctionType) -> (r: usize)
    ensures
        r == calls::reachable_formals(function@),
        r <= function.named@.len(),
{
    match &function.variadic {
        Some(rest) => if rest.preceding_named < function.named.len() {
            rest.preceding_named
        } else {
            function.named.len()
        },
        None => function.named.len(),
    }
}

fn open_formal(claimed: &Vec<bool>, from: usize, to: usize) -> (r: usize)
    requires
        to <= claimed@.len(),
    ensures
        r == calls::open_formal(claimed@, from as int, to as int),
        from <= r,
        from <= to ==> r <= to,
{
    let mut i = from;
    while i < to && claimed[i]
        invariant
            from <= i,
            to <= claimed@.len(),
            from <= to ==> i <= to,
            calls::open_formal(claimed@, i as int, to as int) == calls::open_formal(
                claimed@,
                from as int,
                to as int,
            ),
        decreases to - i,
    {
        i += 1;
    }
    i
}

/// Where each argument goes.
pub fn argument_targets(function: &FunctionType, arguments: &Vec<CallArgument>) -> (r: Vec<
    Option<ArgumentTarget>,
>)
    ensures
        r@ == calls::targets_of(function@, calls::arguments_view(arguments@)),
        r@.len() == arguments@.len(),
{
    let mut claimed: Vec<bool> = Vec::new();
    let mut k: usize = 0;
    while k < function.named.len()
        invariant
            k <= function.named.len(),
            claimed@ =~= Seq::new(k as nat, |i: int| false),
        decreases function.named.len() - k,
    {
        claimed.push(false);
        k += 1;
    }
    assert(claimed@ =~= Seq::new(function@.named.len(), |i: int| false));
    let mut targets = claim_by_name(&function.named, arguments, &mut claimed);
    place_rest(function, arguments, &mut claimed, &mut targets);
    targets
}

fn place_rest(
    function: &FunctionType,
    arguments: &Vec<CallArgument>,
    claimed: &mut Vec<bool>,
    targets: &mut Vec<Option<ArgumentTarget>>,
)
    requires
        old(claimed)@.len() == function.named@.len(),
        old(targets)@.len() == arguments@.len(),
    ensures
        final(targets)@.len() == arguments@.len(),
        final(targets)@ == calls::place_rest(
            function@,
            calls::arguments_view(arguments@),
            0,
            old(claimed)@,
            old(targets)@,
            0,
            0,
        ),
{
    let reachable = reachable_formals(function);
    let mut next_positional: usize = 0;
    let mut next_named: usize = 0;
    let mut i: usize = 0;
    while i < arguments.len()
        invariant
            i <= arguments.len(),
            claimed@.len() == function.named@.len(),
            targets@.len() == arguments@.len(),
            reachable == calls::reachable_formals(function@),
            reachable <= function.named@.len(),
            next_positional <= function.positional@.len(),
            next_named <= reachable,
            calls::place_rest(
                function@,
                calls::arguments_view(arguments@),
                i as int,
                claimed@,
                targets@,
                next_positional as int,
                next_named as int,
            ) == calls::place_rest(
                function@,
                calls::arguments_view(arguments@),
                0,
                old(claimed)@,
                old(targets)@,
                0,
                0,
            ),
        decreases arguments.len() - i,
    {
        assert(calls::arguments_view(arguments@)[i as int] == arguments@[i as int]@);
        if arguments[i].forwards_dots || targets[i].is_some() {
            i += 1;
            continue ;
        }
        let target = match &arguments[i].name {
            Some(name) => {
                if function.variadic.is_some() && !is_formal_name(&function.named, name.as_str()) {
                    ArgumentTarget::Rest
                } else {
                    ArgumentTarget::UnmatchedName
                }
            },
            None => {
                if next_positional < function.positional.len() {
                    next_positional += 1;
                    ArgumentTarget::Positional(next_positional - 1)
                } else {
                    next_named = open_formal(claimed, next_named, reachable);
                    if next_named < reachable {
                        claimed.set(next_named, true);
                        next_named += 1;
                        ArgumentTarget::Named(next_named - 1)
                    } else if function.variadic.is_some() {
                        ArgumentTarget::Rest
                    } else {
                        ArgumentTarget::Overflow
                    }
                }
            },
        };
        targets.set(i, Some(target));
        i += 1;
    }
}

/// The places of the arguments the rest parameter takes.
fn forwarded(targets: &Vec<Option<ArgumentTarget>>) -> (r: Vec<usize>)
    ensures
        places_view(r@) == calls::forwarded(targets@, targets@.len()),
        forall|i: int| 0 <= i < r@.len() ==> (#[trigger] r@[i]) < targets@.len(),
{
    let mut places: Vec<usize> = Vec::new();
    let mut i: usize = 0;
    assert(places_view(places@) =~= Seq::empty());
    while i < targets.len()
        invariant
            i <= targets.len(),
            places_view(places@) == calls::forwarded(targets@, i as nat),
            forall|k: int| 0 <= k < places@.len() ==> (#[trigger] places@[k]) < targets@.len(),
        decreases targets.len() - i,
    {
        if let Some(ArgumentTarget::Rest) = targets[i] {
            let ghost before = places_view(places@);
            places.push(i);
            assert(places_view(places@) =~= before.push(i as int));
        }
        i += 1;
    }
    places
}

pub open spec fn places_view(places: Seq<usize>) -> Seq<int> {
    Seq::new(places.len(), |i: int| places[i] as int)
}

fn any_forwards(arguments: &Vec<CallArgument>) -> (r: bool)
    ensures
        r == calls::any_forwards(calls::arguments_view(arguments@)),
{
    let mut i: usize = 0;
    while i < arguments.len()
        invariant
            i <= arguments.len(),
            forall|j: int|
                0 <= j < i ==> !(#[trigger] calls::arguments_view(arguments@)[j]).forwards_dots,
        decreases arguments.len() - i,
    {
        assert(calls::arguments_view(arguments@)[i as int] == arguments@[i as int]@);
        if arguments[i].forwards_dots {
            return true;
        }
        i += 1;
    }
    false
}

fn is_supplied(targets: &Vec<Option<ArgumentTarget>>, formal: usize) -> (r: bool)
    ensures
        r == calls::is_supplied(targets@, formal as int),
{
    let mut i: usize = 0;
    while i < targets.len()
        invariant
            i <= targets.len(),
            forall|j: int|
                0 <= j < i ==> #[trigger] targets@[j] != Some(ArgumentTarget::Named(formal)),
        decreases targets.len() - i,
    {
        if let Some(ArgumentTarget::Named(filled)) = targets[i] {
            if filled == formal {
                return true;
            }
        }
        i += 1;
    }
    false
}

fn positional_filled(targets: &Vec<Option<ArgumentTarget>>) -> (r: usize)
    ensures
        r == calls::positional_filled(targets@, targets@.len()),
{
    let mut count: usize = 0;
    let mut i: usize = 0;
    while i < targets.len()
        invariant
            i <= targets.len(),
            count <= i,
            count == calls::positional_filled(targets@, i as nat),
        decreases targets.len() - i,
    {
        if let Some(ArgumentTarget::Positional(_)) = targets[i] {
            count += 1;
        }
        i += 1;
    }
    count
}

fn misses_required(named: &Vec<Parameter>, targets: &Vec<Option<ArgumentTarget>>) -> (r: bool)
    ensures
        r == calls::misses_required(types::params_view(named@), targets@),
{
    let mut i: usize = 0;
    while i < named.len()
        invariant
            i <= named.len(),
            forall|j: int|
                0 <= j < i ==> (#[trigger] types::params_view(named@)[j]).optional
                    || calls::is_supplied(targets@, j),
        decreases named.len() - i,
    {
        assert(types::params_view(named@)[i as int] == named@[i as int]@);
        if !named[i].optional && !is_supplied(targets, i) {
            return true;
        }
        i += 1;
    }
    false
}

fn required_named(named: &Vec<Parameter>) -> (r: usize)
    ensures
        r == calls::required_named(types::params_view(named@), named@.len()),
{
    let mut count: usize = 0;
    let mut i: usize = 0;
    while i < named.len()
        invariant
            i <= named.len(),
            count <= i,
            count == calls::required_named(types::params_view(named@), i as nat),
        decreases named.len() - i,
    {
        assert(types::params_view(named@)[i as int] == named@[i as int]@);
        if !named[i].optional {
            count += 1;
        }
        i += 1;
    }
    count
}

fn formal_names(named: &Vec<Parameter>) -> (r: Vec<String>)
    ensures
        types::texts(r@) == calls::formal_names(types::params_view(named@)),
{
    let mut names: Vec<String> = Vec::new();
    let mut i: usize = 0;
    while i < named.len()
        invariant
            i <= named.len(),
            types::texts(names@) =~= calls::formal_names(types::params_view(named@)).subrange(
                0,
                i as int,
            ),
        decreases named.len() - i,
    {
        names.push(named[i].name.text.clone());
        i += 1;
    }
    assert(types::texts(names@) =~= calls::formal_names(types::params_view(named@)));
    names
}

/// A name that no formal has left.
pub fn named_argument_mismatch(function: &FunctionType, argument: &String) -> (r: TypeErrorKind)
    ensures
        r@ == calls::name_mismatch(function@, argument@),
{
    let parameters = formal_names(&function.named);
    TypeErrorKind::NamedArgumentMismatch {
        argument: argument.clone(),
        duplicate: contains_text(&parameters, argument.as_str()),
        suggestion: nearest_field_name(argument.as_str(), &parameters),
        expected_parameters: parameters,
    }
}

fn unmatched_names(
    function: &FunctionType,
    arguments: &Vec<CallArgument>,
    targets: &Vec<Option<ArgumentTarget>>,
) -> (r: Vec<TypeError>)
    requires
        targets@.len() == arguments@.len(),
    ensures
        findings::errors_view(r@) == calls::unmatched_names(
            function@,
            calls::arguments_view(arguments@),
            targets@,
            arguments@.len(),
        ),
{
    let mut found: Vec<TypeError> = Vec::new();
    let mut i: usize = 0;
    while i < arguments.len()
        invariant
            i <= arguments.len(),
            targets@.len() == arguments@.len(),
            findings::errors_view(found@) =~= calls::unmatched_names(
                function@,
                calls::arguments_view(arguments@),
                targets@,
                i as nat,
            ),
        decreases arguments.len() - i,
    {
        assert(calls::arguments_view(arguments@)[i as int] == arguments@[i as int]@);
        if let Some(ArgumentTarget::UnmatchedName) = targets[i] {
            if let Some(name) = &arguments[i].name {
                let error = TypeError {
                    range: match arguments[i].name_range {
                        Some(range) => range,
                        None => arguments[i].range,
                    },
                    kind: named_argument_mismatch(function, name),
                };
                let ghost before = findings::errors_view(found@);
                let ghost one = error@;
                found.push(error);
                assert(findings::errors_view(found@) =~= before.push(one));
            }
        }
        i += 1;
    }
    found
}

struct OpenFormals {
    positional: Vec<Ty>,
    named: Vec<Parameter>,
    pre_rest: usize,
}

impl OpenFormals {
    spec fn view(&self) -> OpenFormalsV {
        OpenFormalsV {
            positional: types::tys(self.positional@),
            named: types::params_view(self.named@),
            pre_rest: self.pre_rest as int,
        }
    }

    spec fn wf(&self) -> bool {
        self.pre_rest <= self.named@.len()
    }
}

struct Filled {
    ty: Option<Ty>,
    range: TextRange,
    whole_double: bool,
}

impl Filled {
    spec fn view(&self) -> FilledV {
        FilledV { ty: types::opt_ty(self.ty), range: self.range, whole_double: self.whole_double }
    }
}

spec fn filled_view(filled: Seq<Filled>) -> Seq<FilledV> {
    Seq::new(filled.len(), |i: int| filled[i]@)
}

fn formal_at(named: &Vec<Parameter>, name: &str) -> (r: Option<usize>)
    ensures
        match r {
            Some(i) => i < named@.len() && calls::formal_at(types::params_view(named@), name@, 0)
                == Some(i as int),
            None => calls::formal_at(types::params_view(named@), name@, 0) is None,
        },
{
    let mut i: usize = 0;
    while i < named.len()
        invariant
            i <= named.len(),
            calls::formal_at(types::params_view(named@), name@, 0) == calls::formal_at(
                types::params_view(named@),
                name@,
                i as int,
            ),
        decreases named.len() - i,
    {
        if same_text(named[i].name.text(), name) {
            return Some(i);
        }
        i += 1;
    }
    None
}

fn all_optional(named: &Vec<Parameter>) -> (r: bool)
    ensures
        r == calls::all_optional(types::params_view(named@)),
{
    let mut i: usize = 0;
    while i < named.len()
        invariant
            i <= named.len(),
            forall|j: int| 0 <= j < i ==> (#[trigger] types::params_view(named@)[j]).optional,
        decreases named.len() - i,
    {
        assert(types::params_view(named@)[i as int] == named@[i as int]@);
        if !named[i].optional {
            return false;
        }
        i += 1;
    }
    true
}

/// The values an interface passes to its callback, followed by others.
fn passed_by(interface: &FunctionType, range: TextRange, others: Vec<Filled>) -> (r: Vec<Filled>)
    ensures
        filled_view(r@) == calls::passed_by(interface@, range) + filled_view(others@),
{
    let ghost given = calls::passed_by(interface@, range);
    let ghost tail = filled_view(others@);
    let mut values: Vec<Filled> = Vec::new();
    let mut i: usize = 0;
    while i < interface.positional.len()
        invariant
            i <= interface.positional.len(),
            given == calls::passed_by(interface@, range),
            filled_view(values@) =~= given.subrange(0, i as int),
        decreases interface.positional.len() - i,
    {
        let ghost before = filled_view(values@);
        values.push(Filled { ty: Some(interface.positional[i].clone()), range, whole_double: false });
        assert(filled_view(values@) =~= before.push(given[i as int]));
        i += 1;
    }
    let mut j: usize = 0;
    while j < interface.named.len()
        invariant
            j <= interface.named.len(),
            given == calls::passed_by(interface@, range),
            filled_view(values@) =~= given.subrange(0, interface.positional@.len() + j),
        decreases interface.named.len() - j,
    {
        let ghost before = filled_view(values@);
        values.push(Filled { ty: Some(interface.named[j].ty.clone()), range, whole_double: false });
        assert(filled_view(values@) =~= before.push(given[interface.positional@.len() + j]));
        j += 1;
    }
    assert(filled_view(values@) =~= given);
    let mut rest = others;
    values.append(&mut rest);
    assert(filled_view(values@) =~= given + tail);
    values
}

impl InferenceTable {
    fn is_numeric_var(&self, ty: &Ty) -> (r: bool)
        requires
            self.wf(),
        ensures
            r == self@.is_numeric_var(ty@),
    {
        match ty.kind() {
            TyKind::Var(var) => match self.known(*var) {
                Some(Entry::Unbound { constraint, .. }) => *constraint == Constraint::Numeric,
                _ => false,
            },
            _ => false,
        }
    }

    /// One argument against one formal's type.
    pub fn check_argument(
        &mut self,
        site: CallSite,
        expected: &Ty,
        found: &Ty,
        range: TextRange,
        whole_double: bool,
        value: Option<ExprId>,
    ) -> (r: Option<TypeError>)
        requires
            old(self).wf(),
            site.module.wf(),
            hir::opt_below(value, site.module.expressions@.len() as int),
        ensures
            final(self).wf(),
            (final(self)@, opt_error(r)) == old(self)@.check_argument(
                site@,
                expected@,
                found@,
                range,
                whole_double,
                value,
            ),
            final(self)@.grown_from(old(self)@),
    {
        let resolved = self.resolve(found);
        if let TyKind::Unknown = resolved.kind() {
            return None;
        }
        if self.compatible(&resolved, expected) {
            return None;
        }
        if !site.strict && whole_double {
            if let TyKind::Scalar(Atomic::Double) = resolved.kind() {
                if self.compatible(&scalar(Atomic::Integer), expected) {
                    return None;
                }
            }
        }
        self.argument_refused(site, expected, &resolved, range, value)
    }

    fn argument_refused(
        &mut self,
        site: CallSite,
        expected: &Ty,
        found: &Ty,
        range: TextRange,
        value: Option<ExprId>,
    ) -> (r: Option<TypeError>)
        requires
            old(self).wf(),
            site.module.wf(),
            hir::opt_below(value, site.module.expressions@.len() as int),
        ensures
            final(self).wf(),
            (final(self)@, opt_error(r)) == old(self)@.argument_refused(
                site@,
                expected@,
                found@,
                range,
                value,
            ),
            final(self)@.grown_from(old(self)@),
    {
        let wanted = self.resolve(expected);
        if self.is_numeric_var(&wanted) {
            return Some(
                TypeError {
                    range,
                    kind: TypeErrorKind::ConstraintViolation {
                        constraint: Constraint::Numeric,
                        found: found.clone(),
                    },
                },
            );
        }
        if let (TyKind::Function(own), TyKind::Function(interface)) = (found.kind(), wanted.kind()) {
            if let Some(mismatch) = self.explain_function_mismatch(own, interface) {
                return Some(
                    TypeError {
                        range,
                        kind: TypeErrorKind::CallbackShape { mismatch: Box::new(mismatch) },
                    },
                );
            }
        }
        Some(blame::type_mismatch(self, site.module, range, &wanted, found, value))
    }

    fn admits_filled(&mut self, site: CallSite, formal: &Ty, filled: &Filled) -> (r: bool)
        requires
            old(self).wf(),
            site.module.wf(),
        ensures
            final(self).wf(),
            final(self)@.grown_from(old(self)@),
            match old(self)@.admits_filled(site@, formal@, filled@) {
                Some(after) => r && final(self)@ == after,
                None => !r,
            },
    {
        match &filled.ty {
            Some(ty) => {
                let error = self.check_argument(
                    site,
                    formal,
                    ty,
                    filled.range,
                    filled.whole_double,
                    None,
                );
                error.is_none()
            },
            None => true,
        }
    }

    fn forward_named(
        &mut self,
        site: CallSite,
        arguments: &Vec<CallArgument>,
        places: &Vec<usize>,
        open: &mut OpenFormals,
        rest: &Option<Ty>,
    ) -> (r: Option<Vec<Filled>>)
        requires
            old(self).wf(),
            site.module.wf(),
            old(open).wf(),
            forall|i: int| 0 <= i < places@.len() ==> (#[trigger] places@[i]) < arguments@.len(),
        ensures
            final(self).wf(),
            final(self)@.grown_from(old(self)@),
            final(open).wf(),
            match old(self)@.forward_named(
                site@,
                calls::arguments_view(arguments@),
                places_view(places@),
                0,
                old(open)@,
                types::opt_ty(*rest),
                Seq::empty(),
            ) {
                Some((after, left, positionals)) => {
                    &&& r is Some
                    &&& final(self)@ == after
                    &&& final(open)@ == left
                    &&& filled_view(r->0@) == positionals
                },
                None => r is None,
            },
    {
        let mut positionals: Vec<Filled> = Vec::new();
        let mut i: usize = 0;
        assert(filled_view(positionals@) =~= Seq::empty());
        while i < places.len()
            invariant
                i <= places.len(),
                self.wf(),
                self@.grown_from(old(self)@),
                site.module.wf(),
                open.wf(),
                forall|k: int|
                    0 <= k < places@.len() ==> (#[trigger] places@[k]) < arguments@.len(),
                self@.forward_named(
                    site@,
                    calls::arguments_view(arguments@),
                    places_view(places@),
                    i as int,
                    open@,
                    types::opt_ty(*rest),
                    filled_view(positionals@),
                ) == old(self)@.forward_named(
                    site@,
                    calls::arguments_view(arguments@),
                    places_view(places@),
                    0,
                    old(open)@,
                    types::opt_ty(*rest),
                    Seq::empty(),
                ),
            decreases places.len() - i,
        {
            assert(places_view(places@)[i as int] == places@[i as int] as int);
            let argument = &arguments[places[i]];
            assert(calls::arguments_view(arguments@)[places@[i as int] as int] == argument@);
            let filled = Filled {
                ty: clone_opt_ty(&argument.ty),
                range: argument.range,
                whole_double: argument.whole_double,
            };
            match &argument.name {
                None => {
                    let ghost before = filled_view(positionals@);
                    let ghost one = filled@;
                    positionals.push(filled);
                    assert(filled_view(positionals@) =~= before.push(one));
                },
                Some(name) => match formal_at(&open.named, name.as_str()) {
                    Some(at) => {
                        let ghost before = open@;
                        assert(before.named[at as int].ty == open.named@[at as int].ty@);
                        let field = open.named.remove(at);
                        assert(types::params_view(open.named@) =~= before.named.remove(at as int));
                        if at < open.pre_rest {
                            open.pre_rest = open.pre_rest - 1;
                        }
                        if !self.admits_filled(site, &field.ty, &filled) {
                            return None;
                        }
                    },
                    None => match rest {
                        Some(element) => {
                            if !self.admits_filled(site, element, &filled) {
                                return None;
                            }
                        },
                        None => {
                            return None;
                        },
                    },
                },
            }
            i += 1;
        }
        Some(positionals)
    }

    fn fill_open(
        &mut self,
        site: CallSite,
        values: &Vec<Filled>,
        open: &mut OpenFormals,
        rest: &Option<Ty>,
    ) -> (r: bool)
        requires
            old(self).wf(),
            site.module.wf(),
            old(open).wf(),
        ensures
            final(self).wf(),
            final(self)@.grown_from(old(self)@),
            match old(self)@.fill_open(
                site@,
                filled_view(values@),
                0,
                old(open)@,
                types::opt_ty(*rest),
            ) {
                Some((after, left)) => r && final(self)@ == after && final(open)@ == left,
                None => !r,
            },
    {
        let mut i: usize = 0;
        while i < values.len()
            invariant
                i <= values.len(),
                self.wf(),
                self@.grown_from(old(self)@),
                site.module.wf(),
                open.wf(),
                self@.fill_open(
                    site@,
                    filled_view(values@),
                    i as int,
                    open@,
                    types::opt_ty(*rest),
                ) == old(self)@.fill_open(
                    site@,
                    filled_view(values@),
                    0,
                    old(open)@,
                    types::opt_ty(*rest),
                ),
            decreases values.len() - i,
        {
            assert(filled_view(values@)[i as int] == values@[i as int]@);
            let ghost before = open@;
            if open.positional.len() > 0 {
                assert(before.positional[0] == open.positional@[0]@);
                let formal = open.positional.remove(0);
                assert(types::tys(open.positional@) =~= before.positional.remove(0));
                if !self.admits_filled(site, &formal, &values[i]) {
                    return false;
                }
            } else if open.pre_rest > 0 {
                assert(before.named[0].ty == open.named@[0].ty@);
                let formal = open.named.remove(0);
                assert(types::params_view(open.named@) =~= before.named.remove(0));
                open.pre_rest = open.pre_rest - 1;
                if !self.admits_filled(site, &formal.ty, &values[i]) {
                    return false;
                }
            } else {
                match rest {
                    Some(element) => {
                        if !self.admits_filled(site, element, &values[i]) {
                            return false;
                        }
                    },
                    None => {
                        return false;
                    },
                }
            }
            i += 1;
        }
        true
    }

    fn forwarding_callback_probe_inner(
        &mut self,
        site: CallSite,
        interface: &FunctionType,
        callback: &FunctionType,
        places: &Vec<usize>,
        arguments: &Vec<CallArgument>,
        range: TextRange,
    ) -> (r: bool)
        requires
            old(self).wf(),
            site.module.wf(),
            forall|i: int| 0 <= i < places@.len() ==> (#[trigger] places@[i]) < arguments@.len(),
        ensures
            final(self).wf(),
            final(self)@.grown_from(old(self)@),
            match old(self)@.invoke_callback(
                site@,
                interface@,
                callback@,
                places_view(places@),
                calls::arguments_view(arguments@),
                range,
            ) {
                Some(after) => r && final(self)@ == after,
                None => !r,
            },
    {
        let mut open = OpenFormals {
            positional: clone_types(&callback.positional),
            named: clone_params(&callback.named),
            pre_rest: reachable_formals(callback),
        };
        let rest: Option<Ty> = match &callback.variadic {
            Some(rest) => Some(rest.element.clone()),
            None => None,
        };
        let positionals = match self.forward_named(site, arguments, places, &mut open, &rest) {
            Some(positionals) => positionals,
            None => {
                return false;
            },
        };
        let values = passed_by(interface, range, positionals);
        if !self.fill_open(site, &values, &mut open, &rest) {
            return false;
        }
        if open.positional.len() > 0 || !all_optional(&open.named) {
            return false;
        }
        self.compatible(&callback.ret, &interface.ret)
    }

    /// Whether a callback that does not fit its interface fits it together with
    /// the arguments the call forwards. A refusal leaves no trace.
    pub fn forwarding_callback_probe(
        &mut self,
        site: CallSite,
        expected: &Ty,
        actual: &Ty,
        places: &Vec<usize>,
        arguments: &Vec<CallArgument>,
        range: TextRange,
    ) -> (r: bool)
        requires
            old(self).wf(),
            site.module.wf(),
            forall|i: int| 0 <= i < places@.len() ==> (#[trigger] places@[i]) < arguments@.len(),
        ensures
            final(self).wf(),
            final(self)@.grown_from(old(self)@),
            match old(self)@.forwarding_probe(
                site@,
                expected@,
                actual@,
                places_view(places@),
                calls::arguments_view(arguments@),
                range,
            ) {
                Some(after) => r && final(self)@ == after,
                None => !r && final(self)@ == old(self)@,
            },
    {
        let expected_resolved = self.resolve(expected);
        let actual_resolved = self.resolve(actual);
        match (expected_resolved.kind(), actual_resolved.kind()) {
            (TyKind::Function(interface), TyKind::Function(callback)) => {
                let snapshot = self.snapshot();
                let verdict = self.forwarding_callback_probe_inner(
                    site,
                    interface,
                    callback,
                    places,
                    arguments,
                    range,
                );
                if !verdict {
                    self.rollback(snapshot);
                }
                verdict
            },
            _ => false,
        }
    }

    fn check_given(&mut self, site: CallSite, expected: &Ty, argument: &CallArgument) -> (r: Option<
        TypeError,
    >)
        requires
            old(self).wf(),
            site.module.wf(),
            hir::opt_below(argument.value, site.module.expressions@.len() as int),
        ensures
            final(self).wf(),
            final(self)@.grown_from(old(self)@),
            (final(self)@, opt_error(r)) == old(self)@.check_given(site@, expected@, argument@),
    {
        match &argument.ty {
            Some(ty) => self.check_argument(
                site,
                expected,
                ty,
                argument.range,
                argument.whole_double,
                argument.value,
            ),
            None => None,
        }
    }

    fn check_target(
        &mut self,
        site: CallSite,
        function: &FunctionType,
        arguments: &Vec<CallArgument>,
        places: &Vec<usize>,
        argument: &CallArgument,
        target: Option<ArgumentTarget>,
    ) -> (r: Option<TypeError>)
        requires
            old(self).wf(),
            site.module.wf(),
            hir::opt_below(argument.value, site.module.expressions@.len() as int),
            forall|i: int| 0 <= i < places@.len() ==> (#[trigger] places@[i]) < arguments@.len(),
        ensures
            final(self).wf(),
            final(self)@.grown_from(old(self)@),
            (final(self)@, opt_error(r)) == old(self)@.check_target(
                site@,
                function@,
                calls::arguments_view(arguments@),
                places_view(places@),
                argument@,
                target,
            ),
    {
        match target {
            Some(ArgumentTarget::Positional(slot)) => {
                if slot < function.positional.len() {
                    self.check_given(site, &function.positional[slot], argument)
                } else {
                    None
                }
            },
            Some(ArgumentTarget::Named(formal)) => {
                if formal >= function.named.len() {
                    return None;
                }
                let expected = &function.named[formal].ty;
                assert(function@.named[formal as int].ty == expected@);
                let error = self.check_given(site, expected, argument);
                if error.is_some() {
                    if let Some(ty) = &argument.ty {
                        if self.forwarding_callback_probe(
                            site,
                            expected,
                            ty,
                            places,
                            arguments,
                            argument.range,
                        ) {
                            return None;
                        }
                    }
                }
                error
            },
            Some(ArgumentTarget::Rest) => match &function.variadic {
                Some(rest) => self.check_given(site, &rest.element, argument),
                None => None,
            },
            _ => None,
        }
    }

    fn check_targets(
        &mut self,
        site: CallSite,
        function: &FunctionType,
        arguments: &Vec<CallArgument>,
        targets: &Vec<Option<ArgumentTarget>>,
        places: &Vec<usize>,
    ) -> (r: Result<Vec<TypeError>, TypeError>)
        requires
            old(self).wf(),
            site.module.wf(),
            calls::values_held(*site.module, calls::arguments_view(arguments@)),
            targets@.len() == arguments@.len(),
            forall|i: int| 0 <= i < places@.len() ==> (#[trigger] places@[i]) < arguments@.len(),
        ensures
            final(self).wf(),
            final(self)@.grown_from(old(self)@),
            (final(self)@, findings_outcome(r)) == old(self)@.check_targets(
                site@,
                function@,
                calls::arguments_view(arguments@),
                targets@,
                places_view(places@),
                0,
                Seq::empty(),
            ),
    {
        let forwards = any_forwards(arguments);
        let mut found: Vec<TypeError> = Vec::new();
        let mut i: usize = 0;
        assert(findings::errors_view(found@) =~= Seq::empty());
        while i < arguments.len()
            invariant
                i <= arguments.len(),
                self.wf(),
                self@.grown_from(old(self)@),
                site.module.wf(),
                calls::values_held(*site.module, calls::arguments_view(arguments@)),
                targets@.len() == arguments@.len(),
                forall|k: int|
                    0 <= k < places@.len() ==> (#[trigger] places@[k]) < arguments@.len(),
                forwards == calls::any_forwards(calls::arguments_view(arguments@)),
                self@.check_targets(
                    site@,
                    function@,
                    calls::arguments_view(arguments@),
                    targets@,
                    places_view(places@),
                    i as int,
                    findings::errors_view(found@),
                ) == old(self)@.check_targets(
                    site@,
                    function@,
                    calls::arguments_view(arguments@),
                    targets@,
                    places_view(places@),
                    0,
                    Seq::empty(),
                ),
            decreases arguments.len() - i,
        {
            assert(calls::arguments_view(arguments@)[i as int] == arguments@[i as int]@);
            if !forwards {
                if let Some(ArgumentTarget::Overflow) = targets[i] {
                    let total: usize = (function.positional.len() as u128
                        + function.named.len() as u128) as usize;
                    return Err(
                        TypeError {
                            range: arguments[i].range,
                            kind: TypeErrorKind::ArityMismatch {
                                expected: total,
                                found: arguments.len(),
                            },
                        },
                    );
                }
            }
            let error = self.check_target(
                site,
                function,
                arguments,
                places,
                &arguments[i],
                targets[i],
            );
            if let Some(error) = error {
                let ghost before = findings::errors_view(found@);
                let ghost one = error@;
                found.push(error);
                assert(findings::errors_view(found@) =~= before.push(one));
            }
            i += 1;
        }
        Ok(found)
    }

    fn fill_defaults(&mut self, named: &Vec<Parameter>, targets: &Vec<Option<ArgumentTarget>>)
        requires
            old(self).wf(),
        ensures
            final(self).wf(),
            final(self)@.grown_from(old(self)@),
            final(self)@ == old(self)@.fill_defaults(types::params_view(named@), targets@, 0),
    {
        let mut i: usize = 0;
        while i < named.len()
            invariant
                i <= named.len(),
                self.wf(),
                self@.grown_from(old(self)@),
                self@.fill_defaults(types::params_view(named@), targets@, i as int)
                    == old(self)@.fill_defaults(types::params_view(named@), targets@, 0),
            decreases named.len() - i,
        {
            assert(types::params_view(named@)[i as int] == named@[i as int]@);
            if let Some(default) = &named[i].default {
                if !is_supplied(targets, i) {
                    // A default that does not fit its own formal is reported at
                    // the definition.
                    let _ = self.unify(&named[i].ty, default);
                }
            }
            i += 1;
        }
    }

    /// The findings of a call against a signature, in argument order.
    pub fn match_arguments(
        &mut self,
        site: CallSite,
        callee_range: TextRange,
        function: &FunctionType,
        arguments: &Vec<CallArgument>,
    ) -> (r: Vec<TypeError>)
        requires
            old(self).wf(),
            site.module.wf(),
            calls::values_held(*site.module, calls::arguments_view(arguments@)),
        ensures
            final(self).wf(),
            final(self)@.grown_from(old(self)@),
            (final(self)@, findings::errors_view(r@)) == old(self)@.match_arguments(
                site@,
                callee_range,
                function@,
                calls::arguments_view(arguments@),
            ),
    {
        let targets = argument_targets(function, arguments);
        let places = forwarded(&targets);
        let found = match self.check_targets(site, function, arguments, &targets, &places) {
            Ok(found) => found,
            Err(error) => {
                let mut only: Vec<TypeError> = Vec::new();
                let ghost one = error@;
                only.push(error);
                assert(findings::errors_view(only@) =~= seq![one]);
                return only;
            },
        };
        let forwards = any_forwards(arguments);
        if !forwards {
            self.fill_defaults(&function.named, &targets);
        }
        let unmatched = unmatched_names(function, arguments, &targets);
        if unmatched.len() > 0 {
            return unmatched;
        }
        if !forwards && (positional_filled(&targets) != function.positional.len() || misses_required(&function.named, &targets)) {
            let required: usize = (function.positional.len() as u128 + required_named(
                &function.named,
            ) as u128) as usize;
            let error = TypeError {
                range: callee_range,
                kind: TypeErrorKind::ArityMismatch { expected: required, found: arguments.len() },
            };
            let mut only: Vec<TypeError> = Vec::new();
            let ghost one = error@;
            only.push(error);
            assert(findings::errors_view(only@) =~= seq![one]);
            return only;
        }
        found
    }
}

/// The model of a check of every argument.
pub open spec fn findings_outcome(outcome: Result<Vec<TypeError>, TypeError>) -> Result<
    Seq<TypeErrorV>,
    TypeErrorV,
> {
    match outcome {
        Ok(found) => Ok(findings::errors_view(found@)),
        Err(error) => Err(error@),
    }
}

} // verus!
