//! The directional argument-compatibility relation: the coercions that apply
//! where a value flows into an expected type, and explanations of its refusals.

use rustc_hash::FxHashSet;
use vstd::prelude::*;

use crate::fx;
use crate::infer::{Entry, InferenceTable};
use crate::pairing;
use crate::pairing::{pair_parameters, parameter_variances, promotes, Pairing};
use crate::table;
use crate::table::{CompatibleStepV, TableV, Variance, DEPTH_LIMIT};
use crate::type_ops::{child_types, union_of};
use crate::types;
use crate::types::{Atomic, Constraint, FunctionType, Name, RecordField, Ty, TyKind, TyV};
use crate::unify::{field_types, is_tolerated, one_pair, zip_types};

verus! {

broadcast use {
    crate::types::group_type_views,
    crate::pairing::pairs_push,
    crate::table::grown_from_itself,
    crate::table::grown_in_steps,
};

/// What a compatibility check of two resolved types asks for.
enum CompatibleStep {
    Verdict(bool),
    Unify(Ty, Ty),
    Every(Vec<(Ty, Ty)>),
    AnyOf(Ty, Vec<Ty>),
}

impl CompatibleStep {
    spec fn view(&self) -> CompatibleStepV {
        match self {
            CompatibleStep::Verdict(verdict) => CompatibleStepV::Verdict(*verdict),
            CompatibleStep::Unify(a, b) => CompatibleStepV::Unify(a@, b@),
            CompatibleStep::Every(pairs) => CompatibleStepV::Every(pairing::pairs_view(pairs@)),
            CompatibleStep::AnyOf(actual, options) => CompatibleStepV::AnyOf(
                actual@,
                types::tys(options@),
            ),
        }
    }
}

/// Every type of a list paired with one type.
fn pair_with_each(left: &Vec<Ty>, right: &Ty) -> (r: Vec<(Ty, Ty)>)
    ensures
        pairing::pairs_view(r@) == table::with_each(types::tys(left@), right@),
{
    let mut out: Vec<(Ty, Ty)> = Vec::new();
    let mut i: usize = 0;
    while i < left.len()
        invariant
            i <= left.len(),
            out@.len() == i,
            forall|j: int|
                0 <= j < i ==> (#[trigger] out@[j]).0@ == types::tys(left@)[j] && out@[j].1@
                    == right@,
        decreases left.len() - i,
    {
        out.push((left[i].clone(), right.clone()));
        i += 1;
    }
    assert(pairing::pairs_view(out@) =~= table::with_each(types::tys(left@), right@));
    out
}

/// The pairs two argument lists ask for under their parameters' variances.
fn variance_pairs(variances: &Vec<Variance>, actual: &Vec<Ty>, expected: &Vec<Ty>) -> (r: Vec<
    (Ty, Ty),
>)
    requires
        actual@.len() == expected@.len(),
    ensures
        pairing::pairs_view(r@) == table::variance_pairs(
            variances@,
            types::tys(actual@),
            types::tys(expected@),
            actual@.len(),
        ),
{
    let mut out: Vec<(Ty, Ty)> = Vec::new();
    let mut i: usize = 0;
    assert(pairing::pairs_view(out@) =~= Seq::empty());
    while i < actual.len()
        invariant
            i <= actual.len(),
            actual@.len() == expected@.len(),
            pairing::pairs_view(out@) == table::variance_pairs(
                variances@,
                types::tys(actual@),
                types::tys(expected@),
                i as nat,
            ),
        decreases actual.len() - i,
    {
        let ghost before = pairing::pairs_view(out@);
        let variance = if i < variances.len() {
            variances[i]
        } else {
            Variance::Invariant
        };
        match variance {
            Variance::Bivariant => {},
            Variance::Covariant => {
                out.push((actual[i].clone(), expected[i].clone()));
            },
            Variance::Contravariant => {
                out.push((expected[i].clone(), actual[i].clone()));
            },
            Variance::Invariant => {
                out.push((actual[i].clone(), expected[i].clone()));
                out.push((expected[i].clone(), actual[i].clone()));
            },
        }
        assert(pairing::pairs_view(out@) =~= before + table::argument_pairs(
            variance,
            types::tys(actual@)[i as int],
            types::tys(expected@)[i as int],
        ));
        i += 1;
    }
    out
}

/// The first field with a name.
pub fn find_field<'a>(fields: &'a Vec<RecordField>, name: &str) -> (r: Option<&'a RecordField>)
    ensures
        (match r {
            Some(field) => Some(field@.ty),
            None => None,
        }) == table::field_type(types::fields_view(fields@), name@),
        r matches Some(field) ==> field@.name == name@,
{
    let ghost all = types::fields_view(fields@);
    let mut i: usize = 0;
    assert(all.subrange(0, all.len() as int) =~= all);
    while i < fields.len()
        invariant
            i <= fields.len(),
            all == types::fields_view(fields@),
            table::field_type(all, name@) == table::field_type(
                all.subrange(i as int, all.len() as int),
                name@,
            ),
        decreases fields.len() - i,
    {
        assert(all.subrange(i as int, all.len() as int)[0] == fields[i as int]@);
        assert(all.subrange(i as int, all.len() as int).drop_first() =~= all.subrange(
            i + 1,
            all.len() as int,
        ));
        if crate::text::same_text(fields[i].name.text(), name) {
            return Some(&fields[i]);
        }
        i += 1;
    }
    None
}

/// The pairs two records ask for: each expected field with the actual field of
/// its name.
fn record_pairs(actual: &Vec<RecordField>, expected: &Vec<RecordField>) -> (r: Option<
    Vec<(Ty, Ty)>,
>)
    ensures
        (match r {
            Some(pairs) => Some(pairing::pairs_view(pairs@)),
            None => None,
        }) == table::record_pairs(
            types::fields_view(actual@),
            types::fields_view(expected@),
            expected@.len(),
        ),
{
    let mut out: Vec<(Ty, Ty)> = Vec::new();
    let mut i: usize = 0;
    assert(pairing::pairs_view(out@) =~= Seq::empty());
    while i < expected.len()
        invariant
            i <= expected.len(),
            table::record_pairs(
                types::fields_view(actual@),
                types::fields_view(expected@),
                i as nat,
            ) == Some(pairing::pairs_view(out@)),
        decreases expected.len() - i,
    {
        assert(types::fields_view(expected@)[i as int] == expected[i as int]@);
        match find_field(actual, expected[i].name.text()) {
            Some(field) => {
                out.push((field.ty.clone(), expected[i].ty.clone()));
            },
            None => {
                proof {
                    record_pairs_stay_none(
                        types::fields_view(actual@),
                        types::fields_view(expected@),
                        (i + 1) as nat,
                        expected@.len(),
                    );
                }
                return None;
            },
        }
        i += 1;
    }
    Some(out)
}

/// Once a field is missing, no longer prefix pairs.
proof fn record_pairs_stay_none(
    actual: Seq<types::FieldV>,
    expected: Seq<types::FieldV>,
    from: nat,
    upto: nat,
)
    requires
        from <= upto,
        table::record_pairs(actual, expected, from) is None,
    ensures
        table::record_pairs(actual, expected, upto) is None,
    decreases upto - from,
{
    if from < upto {
        record_pairs_stay_none(actual, expected, from, (upto - 1) as nat);
    }
}

/// What fits one signature where another is expected asks for.
fn pairing_pairs(pairing: Pairing, actual: &FunctionType, expected: &FunctionType) -> (r: Vec<
    (Ty, Ty),
>)
    ensures
        pairing::pairs_view(r@) == (pairing@.rest + pairing@.contravariant()).push(
            (actual@.ret, expected@.ret),
        ),
{
    let mut out: Vec<(Ty, Ty)> = Vec::new();
    let mut i: usize = 0;
    while i < pairing.rest.len()
        invariant
            i <= pairing.rest.len(),
            pairing::pairs_view(out@) =~= pairing@.rest.subrange(0, i as int),
        decreases pairing.rest.len() - i,
    {
        out.push((pairing.rest[i].0.clone(), pairing.rest[i].1.clone()));
        assert(pairing@.rest[i as int] == (pairing.rest[i as int].0@, pairing.rest[i as int].1@));
        i += 1;
    }
    let mut k: usize = 0;
    while k < pairing.parameters.len()
        invariant
            k <= pairing.parameters.len(),
            pairing@.parameters.len() == pairing.parameters@.len(),
            pairing::pairs_view(out@) =~= pairing@.rest + pairing@.contravariant().subrange(
                0,
                k as int,
            ),
        decreases pairing.parameters.len() - k,
    {
        let pair = &pairing.parameters[k];
        out.push((pair.passed.clone(), pair.accepts.clone()));
        assert(pairing@.parameters[k as int] == pair@);
        assert(pairing@.contravariant()[k as int] == (pair.passed@, pair.accepts@));
        k += 1;
    }
    assert(pairing::pairs_view(out@) =~= pairing@.rest + pairing@.contravariant());
    out.push((actual.ret.clone(), expected.ret.clone()));
    out
}

impl InferenceTable {
    /// Whether a value of the first type may flow where the second is expected.
    ///
    /// A `true` verdict keeps the bindings it made; `false` reverses every
    /// change.
    pub fn compatible(&mut self, actual: &Ty, expected: &Ty) -> (r: bool)
        requires
            old(self).wf(),
        ensures
            final(self).wf(),
            (final(self)@, r) == old(self)@.compatible(actual@, expected@),
            !r ==> final(self)@ == old(self)@,
            final(self)@.grown_from(old(self)@),
    {
        self.compatible_probe(actual, expected, 0)
    }

    fn compatible_probe(&mut self, actual: &Ty, expected: &Ty, depth: usize) -> (r: bool)
        requires
            old(self).wf(),
        ensures
            final(self).wf(),
            (final(self)@, r) == old(self)@.compatible_at(actual@, expected@, depth as nat),
            !r ==> final(self)@ == old(self)@,
            final(self)@.grown_from(old(self)@),
        decreases DEPTH_LIMIT - depth, 1int,
    {
        if depth >= DEPTH_LIMIT {
            return false;
        }
        let snapshot = self.snapshot();
        let verdict = self.compatible_inner(actual, expected, depth);
        if !verdict {
            self.rollback(snapshot);
        }
        verdict
    }

    fn compatible_inner(&mut self, actual: &Ty, expected: &Ty, depth: usize) -> (r: bool)
        requires
            old(self).wf(),
            depth < DEPTH_LIMIT,
        ensures
            final(self).wf(),
            old(self)@.compatible_at(actual@, expected@, depth as nat) == if r {
                (final(self)@, true)
            } else {
                (old(self)@, false)
            },
            final(self)@.grown_from(old(self)@),
        decreases DEPTH_LIMIT - depth, 0int,
    {
        let actual = self.resolve(actual);
        let expected = self.resolve(expected);
        match self.compatible_step(&actual, &expected) {
            CompatibleStep::Verdict(verdict) => verdict,
            CompatibleStep::Unify(a, b) => self.unify(&a, &b).is_ok(),
            CompatibleStep::Every(pairs) => self.compatible_every(&pairs, depth + 1),
            CompatibleStep::AnyOf(actual, options) => self.compatible_any(
                &actual,
                &options,
                depth + 1,
            ),
        }
    }

    fn compatible_every(&mut self, pairs: &Vec<(Ty, Ty)>, depth: usize) -> (r: bool)
        requires
            old(self).wf(),
        ensures
            final(self).wf(),
            (final(self)@, r) == old(self)@.compatible_every(
                pairing::pairs_view(pairs@),
                0,
                depth as nat,
            ),
            final(self)@.grown_from(old(self)@),
        decreases DEPTH_LIMIT - depth, 2int,
    {
        let ghost all = pairing::pairs_view(pairs@);
        let mut i: usize = 0;
        while i < pairs.len()
            invariant
                i <= pairs.len(),
                all == pairing::pairs_view(pairs@),
                self.wf(),
                self@.grown_from(old(self)@),
                self@.compatible_every(all, i as int, depth as nat) == old(
                    self,
                )@.compatible_every(all, 0, depth as nat),
            decreases pairs.len() - i,
        {
            assert(all[i as int] == (pairs[i as int].0@, pairs[i as int].1@));
            if !self.compatible_probe(&pairs[i].0, &pairs[i].1, depth) {
                return false;
            }
            i += 1;
        }
        true
    }

    fn compatible_any(&mut self, actual: &Ty, options: &Vec<Ty>, depth: usize) -> (r: bool)
        requires
            old(self).wf(),
        ensures
            final(self).wf(),
            (final(self)@, r) == old(self)@.compatible_any(
                actual@,
                types::tys(options@),
                0,
                depth as nat,
            ),
            final(self)@.grown_from(old(self)@),
        decreases DEPTH_LIMIT - depth, 2int,
    {
        let mut i: usize = 0;
        while i < options.len()
            invariant
                i <= options.len(),
                self.wf(),
                self@.grown_from(old(self)@),
                self@.compatible_any(actual@, types::tys(options@), i as int, depth as nat) == old(
                    self,
                )@.compatible_any(actual@, types::tys(options@), 0, depth as nat),
            decreases options.len() - i,
        {
            assert(types::tys(options@)[i as int] == options[i as int]@);
            if self.compatible_probe(actual, &options[i], depth) {
                return true;
            }
            i += 1;
        }
        false
    }

    fn compatible_step(&self, actual: &Ty, expected: &Ty) -> (r: CompatibleStep)
        requires
            self.wf(),
        ensures
            r@ == table::compatible_step(self@, actual@, expected@),
    {
        if is_tolerated(actual) || is_tolerated(expected) {
            return CompatibleStep::Verdict(true);
        }
        if actual.same(expected) {
            return CompatibleStep::Verdict(true);
        }
        if is_var(actual) || is_var(expected) {
            return CompatibleStep::Unify(actual.clone(), expected.clone());
        }
        if self.undeclared_nominal(actual) || self.undeclared_nominal(expected) {
            return CompatibleStep::Verdict(true);
        }
        match (actual.kind(), expected.kind()) {
            (TyKind::Union(members), _) => CompatibleStep::Every(pair_with_each(members, expected)),
            (_, TyKind::Union(members)) => CompatibleStep::AnyOf(
                actual.clone(),
                self.concrete_first(members),
            ),
            (TyKind::Named(name, arguments), _) => self.nominal_step(name, arguments, expected),
            _ => self.structural_step(actual, expected),
        }
    }

    /// The members of a union, those that are still open variables last.
    fn concrete_first(&self, members: &Vec<Ty>) -> (r: Vec<Ty>)
        requires
            self.wf(),
        ensures
            types::tys(r@) == types::tys(members@).filter(
                |m: TyV| self@.shallow(m) !is Var,
            ) + types::tys(members@).filter(|m: TyV| self@.shallow(m) is Var),
    {
        let ghost all = types::tys(members@);
        let ghost concrete_only = |m: TyV| self@.shallow(m) !is Var;
        let ghost open_only = |m: TyV| self@.shallow(m) is Var;
        let mut concrete: Vec<Ty> = Vec::new();
        let mut variables: Vec<Ty> = Vec::new();
        let mut i: usize = 0;
        proof {
            assert(all.subrange(0, 0) =~= Seq::empty());
            reveal(Seq::filter);
            assert(types::tys(concrete@) =~= all.subrange(0, 0).filter(concrete_only));
            assert(types::tys(variables@) =~= all.subrange(0, 0).filter(open_only));
        }
        while i < members.len()
            invariant
                self.wf(),
                i <= members.len(),
                all == types::tys(members@),
                concrete_only == (|m: TyV| self@.shallow(m) !is Var),
                open_only == (|m: TyV| self@.shallow(m) is Var),
                types::tys(concrete@) == all.subrange(0, i as int).filter(concrete_only),
                types::tys(variables@) == all.subrange(0, i as int).filter(open_only),
            decreases members.len() - i,
        {
            proof {
                assert(all[i as int] == members[i as int]@);
                assert(all.subrange(0, i + 1).drop_last() =~= all.subrange(0, i as int));
                assert(all.subrange(0, i + 1).last() == members[i as int]@);
                reveal(Seq::filter);
            }
            let shallow = self.shallow_resolve(&members[i]);
            if is_var(&shallow) {
                variables.push(members[i].clone());
            } else {
                concrete.push(members[i].clone());
            }
            i += 1;
        }
        assert(all.subrange(0, all.len() as int) =~= all);
        let ghost first = types::tys(concrete@);
        let ghost second = types::tys(variables@);
        let mut k: usize = 0;
        while k < variables.len()
            invariant
                k <= variables.len(),
                second == types::tys(variables@),
                types::tys(concrete@) =~= first + second.subrange(0, k as int),
            decreases variables.len() - k,
        {
            assert(second[k as int] == variables[k as int]@);
            concrete.push(variables[k].clone());
            k += 1;
        }
        assert(types::tys(concrete@) =~= first + second);
        concrete
    }

    fn nominal_step(&self, name: &Name, arguments: &Vec<Ty>, expected: &Ty) -> (r: CompatibleStep)
        requires
            self.wf(),
        ensures
            r@ == table::nominal_step(self@, name@, types::tys(arguments@), expected@),
    {
        if let TyKind::Named(expected_name, expected_arguments) = expected.kind() {
            if name.same(expected_name) && arguments.len() == expected_arguments.len() {
                let variances = match self.vocabulary().definition(name) {
                    Some(definition) => parameter_variances(definition),
                    None => Vec::new(),
                };
                return CompatibleStep::Every(
                    variance_pairs(&variances, arguments, expected_arguments),
                );
            }
        }
        match self.representation(name, arguments) {
            Some(representation) => CompatibleStep::Every(one_pair(&representation, expected)),
            None => CompatibleStep::Verdict(false),
        }
    }

    fn record_into_list(&self, fields: &Vec<RecordField>, element: &Ty) -> (r: CompatibleStep)
        requires
            self.wf(),
        ensures
            r@ == table::record_into_list(self@, types::fields_view(fields@), element@),
    {
        let own = field_types(fields);
        if is_var(&self.resolve(element)) {
            CompatibleStep::Unify(element.clone(), union_of(&own))
        } else {
            CompatibleStep::Every(pair_with_each(&own, element))
        }
    }

    fn structural_step(&self, actual: &Ty, expected: &Ty) -> (r: CompatibleStep)
        requires
            self.wf(),
        ensures
            r@ == table::structural_step(self@, actual@, expected@),
    {
        match (actual.kind(), expected.kind()) {
            (TyKind::Scalar(_), TyKind::Vector(element)) => CompatibleStep::Every(
                one_pair(actual, element),
            ),
            (TyKind::NamedVector(own), TyKind::Vector(element)) => CompatibleStep::Every(
                one_pair(own, element),
            ),
            (TyKind::Scalar(own), TyKind::Scalar(wanted)) => CompatibleStep::Verdict(
                promotes(*own, *wanted),
            ),
            (TyKind::Vector(own), TyKind::Vector(element)) => CompatibleStep::Every(
                one_pair(own, element),
            ),
            (TyKind::NamedVector(own), TyKind::NamedVector(element)) => CompatibleStep::Every(
                one_pair(own, element),
            ),
            (TyKind::Tuple(own), TyKind::Tuple(wanted)) => {
                if own.len() == wanted.len() {
                    CompatibleStep::Every(zip_types(own, wanted))
                } else {
                    CompatibleStep::Verdict(false)
                }
            },
            (TyKind::Record(own), TyKind::Record(wanted)) => {
                if own.len() == wanted.len() {
                    match record_pairs(own, wanted) {
                        Some(pairs) => CompatibleStep::Every(pairs),
                        None => CompatibleStep::Verdict(false),
                    }
                } else {
                    CompatibleStep::Verdict(false)
                }
            },
            (TyKind::Tuple(items), TyKind::List(element)) => {
                if is_var(&self.resolve(element)) {
                    CompatibleStep::Unify(element.clone(), union_of(items))
                } else {
                    CompatibleStep::Every(pair_with_each(items, element))
                }
            },
            (TyKind::Tuple(items), TyKind::NamedList(_)) => CompatibleStep::Verdict(
                items.len() == 0,
            ),
            (TyKind::Record(fields), TyKind::List(element)) => self.record_into_list(
                fields,
                element,
            ),
            (TyKind::Record(fields), TyKind::NamedList(element)) => self.record_into_list(
                fields,
                element,
            ),
            (TyKind::NamedList(own), TyKind::List(element)) => CompatibleStep::Every(
                one_pair(own, element),
            ),
            (TyKind::NamedList(own), TyKind::NamedList(element)) => CompatibleStep::Every(
                one_pair(own, element),
            ),
            (TyKind::List(own), TyKind::List(element)) => CompatibleStep::Every(
                one_pair(own, element),
            ),
            (TyKind::Function(own), TyKind::Function(wanted)) => self.function_compatible(
                own,
                wanted,
            ),
            _ => CompatibleStep::Verdict(false),
        }
    }

    /// What a function needs to serve where another is expected: its parameters
    /// accept whatever the interface passes, and its result fits.
    fn function_compatible(&self, actual: &FunctionType, expected: &FunctionType) -> (r:
        CompatibleStep)
        ensures
            r@ == match table::pair_parameters(actual@, expected@) {
                Some(pairing) => CompatibleStepV::Every(
                    (pairing.rest + pairing.contravariant()).push((actual@.ret, expected@.ret)),
                ),
                None => CompatibleStepV::Verdict(false),
            },
    {
        match pair_parameters(actual, expected) {
            Some(pairing) => CompatibleStep::Every(pairing_pairs(pairing, actual, expected)),
            None => CompatibleStep::Verdict(false),
        }
    }

    /// The constraint of a type that resolves to an unbound variable.
    pub fn open_constraint(&self, ty: &Ty) -> (r: Option<Constraint>)
        requires
            self.wf(),
        ensures
            r == self@.open_constraint(ty@),
    {
        let resolved = self.resolve(ty);
        match resolved.kind() {
            TyKind::Var(var) => match self.known(*var) {
                Some(Entry::Unbound { constraint, .. }) => Some(*constraint),
                _ => None,
            },
            _ => None,
        }
    }

    /// The demand an unbound variable carries, where it carries any. This is the
    /// one fact a rendered type cannot show.
    pub(crate) fn variable_constraint(&self, ty: &Ty) -> (r: Option<Constraint>)
        requires
            self.wf(),
        ensures
            r == self@.variable_constraint(ty@),
    {
        match ty.kind() {
            TyKind::Var(var) => match self.known(*var) {
                Some(Entry::Unbound { constraint, .. }) => {
                    if *constraint == Constraint::Unconstrained {
                        None
                    } else {
                        Some(*constraint)
                    }
                },
                _ => None,
            },
            _ => None,
        }
    }

    /// Whether an unbound inference variable stands in the resolved type.
    pub fn contains_unbound_var(&self, ty: &Ty) -> (r: bool)
        requires
            self.wf(),
        ensures
            r == self@.has_unbound(ty@),
    {
        holds_var(&self.resolve(ty))
    }

    /// Adds the number of every unbound variable that stands in the type, that of
    /// its representative.
    pub fn collect_unbound_vars(&self, ty: &Ty, found: &mut FxHashSet<u32>)
        requires
            self.wf(),
        ensures
            final(found)@ == self@.unbound_vars(ty@, old(found)@),
    {
        self.walk_unbound_vars(ty, found, self.entry_count())
    }

    fn walk_unbound_vars(&self, ty: &Ty, found: &mut FxHashSet<u32>, crossings: usize)
        requires
            self.wf(),
        ensures
            final(found)@ == self@.unbound_within(ty@, old(found)@, crossings as nat),
        decreases crossings, ty@,
    {
        match ty.kind() {
            TyKind::Var(_) => {
                let shallow = self.shallow_resolve(ty);
                match shallow.kind() {
                    TyKind::Var(root) => {
                        fx::fx_add(found, root.0);
                    },
                    _ => {
                        if crossings > 0 {
                            self.walk_unbound_vars(&shallow, found, crossings - 1);
                        }
                    },
                }
            },
            _ => {
                let kids = child_types(ty);
                let mut i: usize = 0;
                while i < kids.len()
                    invariant
                        self.wf(),
                        i <= kids.len(),
                        ty@ !is Var,
                        types::tys(kids@) == ty@.children(),
                        self@.unbound_in_children(ty@, i as int, found@, crossings as nat)
                            == self@.unbound_in_children(ty@, 0, old(found)@, crossings as nat),
                    decreases kids.len() - i,
                {
                    proof {
                        types::child_decreases(ty@, i as int);
                        assert(types::tys(kids@)[i as int] == kids[i as int]@);
                        assert(types::tys(kids@).len() == kids@.len());
                    }
                    self.walk_unbound_vars(&kids[i], found, crossings);
                    i += 1;
                }
                assert(types::tys(kids@).len() == kids@.len());
            },
        }
    }
}

/// Whether an inference variable stands in a type.
fn holds_var(ty: &Ty) -> (r: bool)
    ensures
        r == ty@.has_var(),
    decreases ty@,
{
    match ty.kind() {
        TyKind::Var(_) => true,
        _ => {
            let kids = child_types(ty);
            let mut i: usize = 0;
            while i < kids.len()
                invariant
                    i <= kids.len(),
                    ty@ !is Var,
                    types::tys(kids@) == ty@.children(),
                    forall|j: int| 0 <= j < i ==> !(#[trigger] ty@.children()[j]).has_var(),
                decreases kids.len() - i,
            {
                proof {
                    types::child_decreases(ty@, i as int);
                    assert(types::tys(kids@)[i as int] == kids[i as int]@);
                }
                if holds_var(&kids[i]) {
                    assert(ty@.children()[i as int].has_var());
                    return true;
                }
                i += 1;
            }
            assert(types::tys(kids@).len() == kids@.len());
            false
        },
    }
}

/// Whether a type is a bare variable.
pub fn is_var(ty: &Ty) -> (r: bool)
    ensures
        r == (ty@ is Var),
{
    match ty.kind() {
        TyKind::Var(_) => true,
        _ => false,
    }
}

/// A type without parts resolves to itself.
pub proof fn leaves_resolve_to_themselves(t: TableV, ty: TyV)
    requires
        ty is Unknown || ty is Any || ty is Null || ty is Scalar,
    ensures
        t.resolve(ty) == ty,
        t.shallow(ty) == ty,
{
    assert(t.resolve_children(ty, Seq::empty()) =~= Seq::empty());
}

/// An absent fact fits everything and everything fits it, and neither binds
/// anything: one gap never becomes a second finding.
pub proof fn unknown_fits_everything(t: TableV, ty: TyV)
    ensures
        t.compatible(TyV::Unknown, ty) == (t, true),
        t.compatible(ty, TyV::Unknown) == (t, true),
{
    leaves_resolve_to_themselves(t, TyV::Unknown);
}

/// Every type fits itself, and nothing is bound for it.
pub proof fn every_type_fits_itself(t: TableV, ty: TyV)
    ensures
        t.compatible(ty, ty) == (t, true),
{
}

/// A refusal leaves no trace, so the verdicts on several arguments do not
/// depend on each other's failures.
pub proof fn a_refusal_leaves_no_trace(t: TableV, actual: TyV, expected: TyV)
    ensures
        !t.compatible(actual, expected).1 ==> t.compatible(actual, expected).0 == t,
{
}

/// A value of one atomic mode fits another exactly where it is the same or is
/// promoted to it, which never goes both ways.
pub proof fn scalars_widen_one_way(t: TableV, a: Atomic, b: Atomic)
    ensures
        t.compatible(TyV::Scalar(a), TyV::Scalar(b)) == (t, a == b || table::promotes(a, b)),
        a != b && t.compatible(TyV::Scalar(a), TyV::Scalar(b)).1 ==> !t.compatible(
            TyV::Scalar(b),
            TyV::Scalar(a),
        ).1,
{
    leaves_resolve_to_themselves(t, TyV::Scalar(a));
    leaves_resolve_to_themselves(t, TyV::Scalar(b));
    pairing::promotion_is_one_way(a, b, a);
}

/// Unification never widens: two atomic modes unify exactly where they are the
/// same.
pub proof fn unification_never_widens(t: TableV, a: Atomic, b: Atomic)
    ensures
        t.unify(TyV::Scalar(a), TyV::Scalar(b)).0 == t,
        t.unify(TyV::Scalar(a), TyV::Scalar(b)).1 is Ok <==> a == b,
{
    leaves_resolve_to_themselves(t, TyV::Scalar(a));
    leaves_resolve_to_themselves(t, TyV::Scalar(b));
}

} // verus!
