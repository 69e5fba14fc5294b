//! Schemes: what a binding generalizes to, and what may leave an item.

use rustc_hash::FxHashMap;
use vstd::prelude::*;

use crate::checking;
use crate::checking::{CloserV, ERASE_DEPTH_LIMIT, PROJECTION_LIMIT};
use crate::fx;
use crate::infer;
use crate::infer::{contains_text, Entry, InferenceTable, Vocabulary};
use crate::schemes::{clone_binders, SchemeV, TypeScheme};
use crate::table::TableV;
use crate::text::string_of;
use crate::type_ops::{child_types, union_of_two, unknown, with_child_types};
use crate::types;
use crate::types::{Constraint, InferenceVar, Name, Ty, TyKind, TyV};
use crate::unify::signature_types;

verus! {

broadcast use crate::types::group_type_views;

fn digit(n: u128) -> (r: char)
    requires
        n < 10,
    ensures
        r == checking::digit_char(n as nat),
{
    match n {
        0 => '0',
        1 => '1',
        2 => '2',
        3 => '3',
        4 => '4',
        5 => '5',
        6 => '6',
        7 => '7',
        8 => '8',
        _ => '9',
    }
}

/// The digits of a number.
fn digits(n: u128) -> (r: Vec<char>)
    ensures
        r@ == checking::number_text(n as nat),
    decreases n,
{
    if n < 10 {
        let mut out: Vec<char> = Vec::new();
        out.push(digit(n));
        assert(out@ =~= seq![checking::digit_char(n as nat)]);
        out
    } else {
        let mut out = digits(n / 10);
        out.push(digit(n % 10));
        out
    }
}

fn letter(n: usize) -> (r: char)
    ensures
        r == checking::binder_letter(n as nat),
{
    match n {
        0 => 'T',
        1 => 'U',
        2 => 'V',
        3 => 'W',
        4 => 'X',
        5 => 'Y',
        _ => 'Z',
    }
}

/// The name of a scheme's binder by its place.
fn binder_name(place: usize) -> (r: Name)
    ensures
        r@ == checking::binder_name(place as nat),
{
    let mut text: Vec<char> = Vec::new();
    text.push(letter((place % 256) % 7));
    let ghost first = text@;
    assert(first =~= seq![checking::binder_letter((place as nat % 256) % 7)]);
    if place / 7 != 0 {
        let suffix = digits((place / 7) as u128);
        push_all(&mut text, &suffix);
    }
    Name::new(string_of(&text))
}

fn push_all(text: &mut Vec<char>, suffix: &Vec<char>)
    ensures
        final(text)@ == old(text)@ + suffix@,
{
    let mut i: usize = 0;
    while i < suffix.len()
        invariant
            i <= suffix.len(),
            text@ =~= old(text)@ + suffix@.subrange(0, i as int),
        decreases suffix.len() - i,
    {
        text.push(suffix[i]);
        i += 1;
    }
    assert(suffix@.subrange(0, suffix@.len() as int) =~= suffix@);
}

/// The name of a residual binder.
fn residual_name(ordinal: u128) -> (r: Name)
    ensures
        r@ == checking::residual_name(ordinal as nat),
{
    let mut text: Vec<char> = Vec::new();
    text.push('R');
    let suffix = digits(ordinal);
    assert(text@ =~= seq!['R']);
    push_all(&mut text, &suffix);
    Name::new(string_of(&text))
}

fn binds(binders: &Vec<(Name, Constraint)>, name: &Name) -> (r: bool)
    ensures
        r == checking::binds(infer::binders_view(binders@), name@),
{
    let mut i: usize = 0;
    while i < binders.len()
        invariant
            i <= binders.len(),
            forall|j: int| 0 <= j < i ==> (#[trigger] infer::binders_view(binders@)[j]).0 != name@,
        decreases binders.len() - i,
    {
        if binders[i].0.same(name) {
            assert(infer::binders_view(binders@)[i as int].0 == name@);
            return true;
        }
        assert(infer::binders_view(binders@)[i as int].0 != name@);
        i += 1;
    }
    false
}

/// The first residual name that no binder has.
fn free_name(binders: &Vec<(Name, Constraint)>) -> (r: Name)
    ensures
        r@ == checking::residual_name(
            checking::free_ordinal(
                infer::binders_view(binders@),
                (binders@.len() + 1) as nat,
                (binders@.len() + 1) as nat,
            ),
        ),
{
    let count = binders.len();
    let mut ordinal: u128 = count as u128 + 1;
    let mut tries: u128 = count as u128 + 1;
    while tries > 0
        invariant
            count == binders@.len(),
            tries <= count as u128 + 1,
            ordinal + tries == 2 * (count as u128 + 1),
            checking::free_ordinal(infer::binders_view(binders@), ordinal as nat, tries as nat)
                == checking::free_ordinal(
                infer::binders_view(binders@),
                (count + 1) as nat,
                (count + 1) as nat,
            ),
        decreases tries,
    {
        let name = residual_name(ordinal);
        if !binds(binders, &name) {
            return name;
        }
        ordinal += 1;
        tries -= 1;
    }
    residual_name(ordinal)
}

fn bound_place(bound: &Vec<(InferenceVar, Constraint)>, var: InferenceVar) -> (r: Option<usize>)
    ensures
        match r {
            Some(i) => checking::bound_place(bound@, var, 0) == Some(i as int),
            None => checking::bound_place(bound@, var, 0) is None,
        },
{
    let mut i: usize = 0;
    while i < bound.len()
        invariant
            i <= bound.len(),
            checking::bound_place(bound@, var, 0) == checking::bound_place(bound@, var, i as int),
        decreases bound.len() - i,
    {
        if bound[i].0 == var {
            return Some(i);
        }
        i += 1;
    }
    None
}

impl InferenceTable {
    /// The structural shape of a type: resolved, and through the representations
    /// of nominals. An opaque nominal stays; an undeclared one is unknown.
    pub fn structural(&self, ty: &Ty) -> (r: Ty)
        requires
            self.wf(),
        ensures
            r@ == self@.structural(ty@),
    {
        let mut current = self.resolve(ty);
        let mut steps: usize = PROJECTION_LIMIT;
        while steps > 0
            invariant
                self.wf(),
                self@.projected(current@, steps as nat) == self@.structural(ty@),
            decreases steps,
        {
            let next = match current.kind() {
                TyKind::Named(name, arguments) => {
                    if self.undeclared_nominal(&current) {
                        return unknown();
                    }
                    match self.representation(name, arguments) {
                        Some(representation) => self.resolve(&representation),
                        None => {
                            return current;
                        },
                    }
                },
                _ => {
                    return current;
                },
            };
            current = next;
            steps -= 1;
        }
        current
    }

    /// The join of two types: what unifies them, or their union.
    pub fn join_types(&mut self, left: &Ty, right: &Ty) -> (r: Ty)
        requires
            old(self).wf(),
        ensures
            final(self).wf(),
            (final(self)@, r@) == old(self)@.join_types(left@, right@),
    {
        let left_resolved = self.resolve(left);
        let right_resolved = self.resolve(right);
        let union = union_of_two(&left_resolved, &right_resolved);
        if is_null(&left_resolved) || is_null(&right_resolved) {
            return union;
        }
        let snapshot = self.snapshot();
        match self.unify(left, right) {
            Ok(()) => left.clone(),
            Err(_) => {
                self.rollback(snapshot);
                union
            },
        }
    }

    /// The value of a branch whose two arms both fall through.
    pub fn join_branch_values(&mut self, left: &Ty, right: &Ty) -> (r: Ty)
        requires
            old(self).wf(),
        ensures
            final(self).wf(),
            (final(self)@, r@) == old(self)@.join_branch_values(left@, right@),
    {
        let left_resolved = self.resolve(left);
        let right_resolved = self.resolve(right);
        let left_open = self.contains_unbound_var(&left_resolved);
        let right_open = self.contains_unbound_var(&right_resolved);
        if left_open != right_open {
            let open = if left_open {
                &left_resolved
            } else {
                &right_resolved
            };
            if let Some(Constraint::Unconstrained) = self.open_constraint(open) {
                return union_of_two(&left_resolved, &right_resolved);
            }
        }
        self.join_types(left, right)
    }

    fn abstract_vars(&self, ty: &Ty, bound: &mut Vec<(InferenceVar, Constraint)>) -> (r: Ty)
        requires
            self.wf(),
        ensures
            (r@, final(bound)@) == self@.abstracted(ty@, old(bound)@),
        decreases ty@, 1int,
    {
        match ty.kind() {
            TyKind::Var(var) => {
                let root = self.find(*var);
                if let Some(place) = bound_place(bound, root) {
                    return Ty::new(TyKind::Rigid(binder_name(place)));
                }
                match self.known(root) {
                    Some(Entry::Unbound { level, constraint }) => {
                        proof {
                            infer::find_is_idempotent(self@, *var);
                        }
                        if *level <= self.level() {
                            ty.clone()
                        } else {
                            let name = binder_name(bound.len());
                            bound.push((root, *constraint));
                            Ty::new(TyKind::Rigid(name))
                        }
                    },
                    _ => {
                        proof {
                            infer::find_is_idempotent(self@, *var);
                        }
                        ty.clone()
                    },
                }
            },
            _ => {
                let kids = child_types(ty);
                let done = self.abstract_children(ty, &kids, bound);
                with_child_types(ty, done)
            },
        }
    }

    fn abstract_children(
        &self,
        ty: &Ty,
        kids: &Vec<Ty>,
        bound: &mut Vec<(InferenceVar, Constraint)>,
    ) -> (r: Vec<Ty>)
        requires
            self.wf(),
            types::tys(kids@) == ty@.children(),
        ensures
            (types::tys(r@), final(bound)@) == self@.abstracted_children(
                ty@,
                0,
                old(bound)@,
                Seq::empty(),
            ),
            r@.len() == kids@.len(),
        decreases ty@, 0int,
    {
        let mut done: Vec<Ty> = Vec::new();
        let mut i: usize = 0;
        assert(types::tys(done@) =~= Seq::empty());
        while i < kids.len()
            invariant
                self.wf(),
                i <= kids.len(),
                done@.len() == i,
                types::tys(kids@) == ty@.children(),
                self@.abstracted_children(ty@, i as int, bound@, types::tys(done@))
                    == self@.abstracted_children(ty@, 0, old(bound)@, Seq::empty()),
            decreases kids.len() - i,
        {
            proof {
                types::child_decreases(ty@, i as int);
            }
            let child = self.abstract_vars(&kids[i], bound);
            done.push(child);
            i += 1;
        }
        done
    }

    /// The scheme of a type: its unbound variables above the current level
    /// quantified.
    pub fn generalize(&self, ty: &Ty) -> (r: TypeScheme)
        requires
            self.wf(),
        ensures
            r@ == self@.generalize(ty@),
    {
        let resolved = self.resolve(ty);
        let mut bound: Vec<(InferenceVar, Constraint)> = Vec::new();
        assert(bound@ =~= Seq::empty());
        let body = self.abstract_vars(&resolved, &mut bound);
        let mut binders: Vec<(Name, Constraint)> = Vec::new();
        let mut i: usize = 0;
        while i < bound.len()
            invariant
                i <= bound.len(),
                binders@.len() == i,
                forall|j: int|
                    #![trigger binders@[j]]
                    0 <= j < i ==> binders@[j].0@ == checking::binder_name(j as nat)
                        && binders@[j].1 == bound@[j].1,
            decreases bound.len() - i,
        {
            binders.push((binder_name(i), bound[i].1));
            i += 1;
        }
        assert(infer::binders_view(binders@) =~= checking::bound_binders(bound@));
        TypeScheme { binders, body }
    }

    fn closed(&self, ty: &Ty, depth: usize, closer: &mut Closer) -> (r: Ty)
        requires
            self.wf(),
        ensures
            (r@, final(closer)@) == self@.closed_at(ty@, depth as nat, old(closer)@),
        decreases ERASE_DEPTH_LIMIT - depth, 1int,
    {
        if depth >= ERASE_DEPTH_LIMIT {
            return unknown();
        }
        let shallow = self.shallow_resolve(ty);
        match shallow.kind() {
            TyKind::Var(var) => self.residual(*var, closer),
            _ => {
                let kids = child_types(&shallow);
                let done = self.closed_children(&kids, depth + 1, closer);
                with_child_types(&shallow, done)
            },
        }
    }

    fn closed_children(&self, kids: &Vec<Ty>, depth: usize, closer: &mut Closer) -> (r: Vec<Ty>)
        requires
            self.wf(),
        ensures
            (types::tys(r@), final(closer)@) == self@.closed_children(
                types::tys(kids@),
                0,
                depth as nat,
                old(closer)@,
                Seq::empty(),
            ),
            r@.len() == kids@.len(),
        decreases ERASE_DEPTH_LIMIT - depth, 2int,
    {
        let mut done: Vec<Ty> = Vec::new();
        let mut i: usize = 0;
        assert(types::tys(done@) =~= Seq::empty());
        while i < kids.len()
            invariant
                self.wf(),
                i <= kids.len(),
                done@.len() == i,
                self@.closed_children(
                    types::tys(kids@),
                    i as int,
                    depth as nat,
                    closer@,
                    types::tys(done@),
                ) == self@.closed_children(
                    types::tys(kids@),
                    0,
                    depth as nat,
                    old(closer)@,
                    Seq::empty(),
                ),
            decreases kids.len() - i,
        {
            let child = self.closed(&kids[i], depth, closer);
            done.push(child);
            i += 1;
        }
        done
    }

    fn residual(&self, var: InferenceVar, closer: &mut Closer) -> (r: Ty)
        requires
            self.wf(),
        ensures
            (r@, final(closer)@) == self@.residual(var, old(closer)@),
    {
        match self.known(var) {
            Some(Entry::Unbound { constraint, .. }) => {
                if *constraint == Constraint::Unconstrained {
                    return unknown();
                }
                if let Some(name) = closer.name_of(var) {
                    return Ty::new(TyKind::Rigid(name));
                }
                let name = free_name(&closer.binders);
                closer.add(var, &name, *constraint);
                Ty::new(TyKind::Rigid(name))
            },
            _ => unknown(),
        }
    }

    /// A scheme as it may leave the item: bound variables are replaced, unbound
    /// ones that carry a constraint become binders, and the others are unknown.
    pub fn close_scheme(&self, scheme: &TypeScheme) -> (r: TypeScheme)
        requires
            self.wf(),
        ensures
            r@ == self@.close_scheme(scheme@),
            !r@.body.has_var(),
    {
        let mut closer = Closer { binders: clone_binders(&scheme.binders), generalized: fx::fx_map() };
        assert(closer@.generalized =~= Map::empty());
        let body = self.closed(&scheme.body, 0, &mut closer);
        proof {
            closed_schemes_hold_no_variable(self@, scheme@);
        }
        TypeScheme { binders: closer.binders, body }
    }
}

pub fn is_null(ty: &Ty) -> (r: bool)
    ensures
        r == (ty@ is Null),
{
    match ty.kind() {
        TyKind::Null => true,
        _ => false,
    }
}

struct Closer {
    binders: Vec<(Name, Constraint)>,
    generalized: FxHashMap<u32, Name>,
}

spec fn generalized_view(generalized: Map<u32, Name>) -> Map<u32, Seq<char>> {
    Map::new(|key: u32| generalized.dom().contains(key), |key: u32| generalized[key]@)
}

impl Closer {
    spec fn view(&self) -> CloserV {
        CloserV {
            binders: infer::binders_view(self.binders@),
            generalized: generalized_view(self.generalized@),
        }
    }

    fn name_of(&self, var: InferenceVar) -> (r: Option<Name>)
        ensures
            (match r {
                Some(name) => Some(name@),
                None => None,
            }) == checking::generalized_name(self@.generalized, var),
    {
        match fx::fx_get(&self.generalized, var.0) {
            Some(name) => Some(name.clone()),
            None => None,
        }
    }

    fn add(&mut self, var: InferenceVar, name: &Name, constraint: Constraint)
        ensures
            final(self)@ == (CloserV {
                binders: old(self)@.binders.push((name@, constraint)),
                generalized: old(self)@.generalized.insert(var.0, name@),
            }),
    {
        self.binders.push((name.clone(), constraint));
        fx::fx_insert(&mut self.generalized, var.0, name.clone());
        assert(self@.binders =~= old(self)@.binders.push((name@, constraint)));
        assert(self@.generalized =~= old(self)@.generalized.insert(var.0, name@));
    }
}

/// Whether no type of a list holds an inference variable.
pub open spec fn all_closed(types: Seq<TyV>) -> bool {
    forall|i: int| 0 <= i < types.len() ==> !(#[trigger] types[i]).has_var()
}

proof fn spliced_stays_closed(types: Seq<TyV>)
    requires
        all_closed(types),
    ensures
        all_closed(types::spliced(types)),
    decreases types.len(),
{
    if types.len() > 0 {
        let before = types.drop_last();
        assert forall|i: int| 0 <= i < before.len() implies !(#[trigger] before[i]).has_var() by {
            assert(before[i] == types[i]);
        }
        spliced_stays_closed(before);
        let last = types.last();
        assert(last == types[types.len() - 1]);
        let members = types::members_of(last);
        assert forall|i: int| 0 <= i < members.len() implies !(#[trigger] members[i]).has_var() by {
            if last is Union {
                assert(last.children()[i] == members[i]);
            }
        }
        let all = types::spliced(types);
        let n = types::spliced(before).len();
        assert forall|i: int| 0 <= i < all.len() implies !(#[trigger] all[i]).has_var() by {
            if i < n {
                assert(all[i] == types::spliced(before)[i]);
            } else {
                assert(all[i] == members[i - n]);
            }
        }
    }
}

proof fn distinct_stays_closed(types: Seq<TyV>)
    requires
        all_closed(types),
    ensures
        all_closed(types::distinct(types)),
    decreases types.len(),
{
    if types.len() > 0 {
        let before = types.drop_last();
        assert forall|i: int| 0 <= i < before.len() implies !(#[trigger] before[i]).has_var() by {
            assert(before[i] == types[i]);
        }
        distinct_stays_closed(before);
        let kept = types::distinct(before);
        let all = types::distinct(types);
        assert(types.last() == types[types.len() - 1]);
        assert forall|i: int| 0 <= i < all.len() implies !(#[trigger] all[i]).has_var() by {
            if i < kept.len() {
                assert(all[i] == kept[i]);
            }
        }
    }
}

proof fn param_types_rebuilt(params: Seq<types::ParameterV>, kids: Seq<TyV>, from: int)
    requires
        0 <= from,
        from + types::param_types(params).len() <= kids.len(),
    ensures
        types::param_types(types::with_param_types(params, kids, from)) == kids.subrange(
            from,
            from + types::param_types(params).len(),
        ),
    decreases params.len(),
{
    let rebuilt = types::with_param_types(params, kids, from);
    if params.len() == 0 {
        assert(types::param_types(rebuilt) =~= kids.subrange(from, from));
    } else {
        let before = params.drop_last();
        param_types_rebuilt(before, kids, from);
        assert(rebuilt.drop_last() =~= types::with_param_types(before, kids, from));
        assert(types::param_types(rebuilt) =~= kids.subrange(
            from,
            from + types::param_types(params).len(),
        ));
    }
}

/// A type rebuilt from types without inference variables holds none.
proof fn rebuilt_stays_closed(ty: TyV, kids: Seq<TyV>)
    requires
        kids.len() == ty.children().len(),
        all_closed(kids),
        ty !is Var,
    ensures
        !ty.with_children(kids).has_var(),
{
    let rebuilt = ty.with_children(kids);
    match ty {
        TyV::Union(members) => {
            spliced_stays_closed(kids);
            distinct_stays_closed(types::spliced(kids));
            let distinct = types::distinct(types::spliced(kids));
            if distinct.len() > 0 {
                assert(!distinct[0].has_var());
            }
            if rebuilt is Union {
                assert(rebuilt.children() == distinct || distinct.len() == 1);
            }
        },
        TyV::Function(function) => {
            let f = *function;
            let p = f.positional.len() as int;
            param_types_rebuilt(f.named, kids, p);
            assert(rebuilt.children() =~= kids);
        },
        TyV::Record(fields) => {
            assert(rebuilt.children() =~= kids);
        },
        _ => {
            assert(rebuilt.children() =~= kids);
        },
    }
}

proof fn closing_leaves_no_variable(t: TableV, ty: TyV, depth: nat, closer: CloserV)
    ensures
        !t.closed_at(ty, depth, closer).0.has_var(),
    decreases ERASE_DEPTH_LIMIT - depth, 1int, 0int,
{
    if depth < ERASE_DEPTH_LIMIT {
        let shallow = t.shallow(ty);
        if shallow !is Var {
            closing_children_leaves_no_variable(
                t,
                shallow.children(),
                0,
                depth + 1,
                closer,
                Seq::empty(),
            );
            let kids = t.closed_children(
                shallow.children(),
                0,
                depth + 1,
                closer,
                Seq::empty(),
            ).0;
            rebuilt_stays_closed(shallow, kids);
        }
    }
}

proof fn closing_children_leaves_no_variable(
    t: TableV,
    types: Seq<TyV>,
    from: int,
    depth: nat,
    closer: CloserV,
    done: Seq<TyV>,
)
    requires
        all_closed(done),
        0 <= from <= types.len(),
        done.len() == from,
    ensures
        all_closed(t.closed_children(types, from, depth, closer, done).0),
        t.closed_children(types, from, depth, closer, done).0.len() == types.len(),
    decreases ERASE_DEPTH_LIMIT - depth, 2int, types.len() - from,
{
    if from < types.len() {
        closing_leaves_no_variable(t, types[from], depth, closer);
        let (child, after) = t.closed_at(types[from], depth, closer);
        closing_children_leaves_no_variable(t, types, from + 1, depth, after, done.push(child));
    }
}

/// A scheme that leaves an item holds no inference variable: another item's
/// table could not resolve one.
pub proof fn closed_schemes_hold_no_variable(t: TableV, scheme: SchemeV)
    ensures
        !t.close_scheme(scheme).body.has_var(),
{
    closing_leaves_no_variable(
        t,
        scheme.body,
        0,
        CloserV { binders: scheme.binders, generalized: Map::empty() },
    );
}

/// The types an alias expansion walks through.
fn alias_children(ty: &Ty) -> (r: Vec<Ty>)
    ensures
        types::tys(r@) == checking::alias_children(ty@),
{
    match ty.kind() {
        TyKind::Function(function) => signature_types(function),
        _ => child_types(ty),
    }
}

fn alias_cycle(
    vocabulary: &Vocabulary,
    ty: &Ty,
    expanding: &mut Vec<String>,
    expansions: usize,
) -> (r: Option<String>)
    ensures
        types::opt_text(r) == checking::alias_cycle(
            vocabulary@.definitions,
            ty@,
            types::texts(old(expanding)@),
            expansions as nat,
        ),
        final(expanding)@ == old(expanding)@,
    decreases expansions, ty@, 1int,
{
    let kids = alias_children(ty);
    if let Some(name) = alias_cycle_in(vocabulary, ty, &kids, expanding, expansions) {
        return Some(name);
    }
    let name = match ty.kind() {
        TyKind::Named(name, _) => name,
        _ => {
            return None;
        },
    };
    let definition = match vocabulary.definition(name) {
        Some(definition) => definition,
        None => {
            return None;
        },
    };
    if !definition.alias {
        return None;
    }
    if contains_text(expanding, name.text()) {
        return Some(name.text.clone());
    }
    if expansions == 0 {
        return None;
    }
    expanding.push(name.text.clone());
    let found = alias_cycle(vocabulary, &definition.body, expanding, expansions - 1);
    expanding.pop();
    assert(expanding@ =~= old(expanding)@);
    found
}

fn alias_cycle_in(
    vocabulary: &Vocabulary,
    ty: &Ty,
    kids: &Vec<Ty>,
    expanding: &mut Vec<String>,
    expansions: usize,
) -> (r: Option<String>)
    requires
        types::tys(kids@) == checking::alias_children(ty@),
    ensures
        types::opt_text(r) == checking::alias_cycle_in(
            vocabulary@.definitions,
            ty@,
            0,
            types::texts(old(expanding)@),
            expansions as nat,
        ),
        final(expanding)@ == old(expanding)@,
    decreases expansions, ty@, 0int,
{
    let mut i: usize = 0;
    while i < kids.len()
        invariant
            i <= kids.len(),
            types::tys(kids@) == checking::alias_children(ty@),
            expanding@ == old(expanding)@,
            checking::alias_cycle_in(
                vocabulary@.definitions,
                ty@,
                i as int,
                types::texts(old(expanding)@),
                expansions as nat,
            ) == checking::alias_cycle_in(
                vocabulary@.definitions,
                ty@,
                0,
                types::texts(old(expanding)@),
                expansions as nat,
            ),
        decreases kids.len() - i,
    {
        proof {
            checking::alias_child_decreases(ty@, i as int);
        }
        if let Some(name) = alias_cycle(vocabulary, &kids[i], expanding, expansions) {
            return Some(name);
        }
        i += 1;
    }
    None
}

/// The first alias whose expansion re-enters itself below a type.
pub fn find_alias_cycle(vocabulary: &Vocabulary, ty: &Ty) -> (r: Option<String>)
    ensures
        types::opt_text(r) == checking::alias_cycle(
            vocabulary@.definitions,
            ty@,
            Seq::empty(),
            vocabulary@.definitions.dom().len(),
        ),
{
    let mut expanding: Vec<String> = Vec::new();
    assert(types::texts(expanding@) =~= Seq::empty());
    alias_cycle(vocabulary, ty, &mut expanding, fx::count_declarations(&vocabulary.definitions))
}

} // verus!
