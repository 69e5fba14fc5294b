//! What unification achieves: two plain types that unify resolve alike, and
//! the outcome does not depend on which of them comes first.
//!
//! A type is plain where it is built from scalars, `NULL`, vectors, lists,
//! tuples, records and variables the table knows, and so are the bindings it
//! leads to, none of which leads back to itself. A union is plain where its
//! members are, and are all the same once the bindings are put in.

use vstd::prelude::*;

use crate::infer::find_is_idempotent;
use crate::table;
use crate::table::{EntryV, TableV, UnifyStepV};
use crate::types;
use crate::types::{InferenceVar, TyV};

verus! {

/// Whether a type's own shape is one of the plain ones.
pub open spec fn plain_shape(ty: TyV) -> bool {
    match ty {
        TyV::Scalar(_)
        | TyV::Null
        | TyV::Vector(_)
        | TyV::NamedVector(_)
        | TyV::List(_)
        | TyV::NamedList(_)
        | TyV::Tuple(_)
        | TyV::Record(_) => true,
        _ => false,
    }
}

/// Whether all types of a list are the same.
pub open spec fn all_same(types: Seq<TyV>) -> bool {
    forall|i: int, j: int|
        0 <= i < types.len() && 0 <= j < types.len() ==> #[trigger] types[i] == #[trigger] types[j]
}

impl TableV {
    /// Whether a type is plain, with at most `crossings` bindings on each path.
    pub open spec fn plain_within(self, ty: TyV, crossings: nat) -> bool
        decreases crossings, ty,
    {
        match ty {
            TyV::Var(_) => match self.shallow(ty) {
                TyV::Var(root) => self.holds(root),
                bound => crossings > 0 && self.plain_within(bound, (crossings - 1) as nat),
            },
            _ => {
                proof {
                    assert forall|i: int| 0 <= i < ty.children().len() implies decreases_to!(
                        ty => ty.children()[i]
                    ) by {
                        types::child_decreases(ty, i);
                    }
                }
                &&& plain_shape(ty) || (ty is Union && all_same(self.full_children(ty, crossings)))
                &&& forall|i: int|
                    0 <= i < ty.children().len() ==> self.plain_within(
                        #[trigger] ty.children()[i],
                        crossings,
                    )
            },
        }
    }

    /// Whether a type is plain. A path crosses each binding at most once, so it
    /// crosses no more than there are entries.
    pub open spec fn is_plain(self, ty: TyV) -> bool {
        self.plain_within(ty, self.entries.len())
    }

    /// The type with every binding put in, through at most `crossings` of them
    /// on each path.
    pub open spec fn full_within(self, ty: TyV, crossings: nat) -> TyV
        decreases crossings, ty, 1int,
    {
        match ty {
            TyV::Var(_) => match self.shallow(ty) {
                TyV::Var(root) => TyV::Var(root),
                bound => if crossings > 0 {
                    self.full_within(bound, (crossings - 1) as nat)
                } else {
                    TyV::Unknown
                },
            },
            _ => ty.with_children(self.full_children(ty, crossings)),
        }
    }

    /// The types a type is built from, with every binding put in.
    pub open spec fn full_children(self, ty: TyV, crossings: nat) -> Seq<TyV>
        decreases crossings, ty, 0int,
    {
        proof {
            assert forall|i: int| 0 <= i < ty.children().len() implies decreases_to!(
                ty => ty.children()[i]
            ) by {
                types::child_decreases(ty, i);
            }
        }
        Seq::new(
            ty.children().len(),
            |i: int|
                if 0 <= i < ty.children().len() {
                    self.full_within(ty.children()[i], crossings)
                } else {
                    TyV::Any
                },
        )
    }

    spec fn full(self, ty: TyV) -> TyV {
        self.full_within(ty, self.entries.len())
    }

    /// Redirects lead to older variables, and a binding is never a bare
    /// variable.
    spec fn leads_down(self) -> bool {
        forall|i: int|
            #![trigger self.entries[i]]
            0 <= i < self.entries.len() ==> self.entries[i].suits(i)
    }
}

proof fn full_child(t: TableV, ty: TyV, n: nat, i: int)
    requires
        0 <= i < ty.children().len(),
    ensures
        t.full_children(ty, n).len() == ty.children().len(),
        t.full_children(ty, n)[i] == t.full_within(ty.children()[i], n),
{
}

/// More crossings change nothing.
proof fn more_crossings(t: TableV, ty: TyV, n: nat, m: nat)
    requires
        n <= m,
        t.plain_within(ty, n),
    ensures
        t.plain_within(ty, m),
        t.full_within(ty, n) == t.full_within(ty, m),
    decreases n, ty,
{
    match ty {
        TyV::Var(_) => match t.shallow(ty) {
            TyV::Var(_) => {},
            bound => {
                more_crossings(t, bound, (n - 1) as nat, (m - 1) as nat);
            },
        },
        _ => {
            assert forall|i: int| 0 <= i < ty.children().len() implies t.plain_within(
                #[trigger] ty.children()[i],
                m,
            ) && t.full_within(ty.children()[i], n) == t.full_within(ty.children()[i], m) by {
                types::child_decreases(ty, i);
                more_crossings(t, ty.children()[i], n, m);
            }
            assert(t.full_children(ty, n) =~= t.full_children(ty, m));
        },
    }
}

/// The fewest crossings that are enough.
proof fn fewest_crossings(t: TableV, ty: TyV, n: nat) -> (m: nat)
    requires
        t.plain_within(ty, n),
    ensures
        m <= n,
        t.plain_within(ty, m),
        m > 0 ==> !t.plain_within(ty, (m - 1) as nat),
    decreases n,
{
    if n > 0 && t.plain_within(ty, (n - 1) as nat) {
        fewest_crossings(t, ty, (n - 1) as nat)
    } else {
        n
    }
}

/// Whether none of some variables is plain within so many crossings.
spec fn all_deeper(t: TableV, stack: Seq<InferenceVar>, n: nat) -> bool {
    forall|i: int| 0 <= i < stack.len() ==> !t.plain_within(TyV::Var(#[trigger] stack[i]), n)
}

/// Crossing a bound variable: it stands on no stack of deeper ones, and is
/// deeper than what its binding needs.
proof fn crossing(t: TableV, ty: TyV, n: nat, stack: Seq<InferenceVar>) -> (m: nat)
    requires
        ty is Var,
        t.shallow(ty) !is Var,
        t.plain_within(ty, n),
        all_deeper(t, stack, n),
    ensures
        0 < m <= n,
        t.plain_within(t.shallow(ty), (m - 1) as nat),
        !stack.contains(t.find(ty->Var_0)),
        all_deeper(t, stack.push(t.find(ty->Var_0)), (m - 1) as nat),
        t.holds(t.find(ty->Var_0)),
{
    let root = t.find(ty->Var_0);
    find_is_idempotent(t, ty->Var_0);
    assert(t.shallow(TyV::Var(root)) == t.shallow(ty));
    assert(t.plain_within(TyV::Var(root), n));
    let m = fewest_crossings(t, TyV::Var(root), n);
    let pushed = stack.push(root);
    assert forall|i: int| 0 <= i < pushed.len() implies !t.plain_within(
        TyV::Var(#[trigger] pushed[i]),
        (m - 1) as nat,
    ) by {
        if i < stack.len() && t.plain_within(TyV::Var(stack[i]), (m - 1) as nat) {
            more_crossings(t, TyV::Var(stack[i]), (m - 1) as nat, n);
        }
    }
    m
}

/// Distinct variables of a table are no more than its entries.
proof fn distinct_are_few(stack: Seq<InferenceVar>, bound: nat)
    requires
        stack.no_duplicates(),
        forall|i: int| 0 <= i < stack.len() ==> (#[trigger] stack[i]).0 < bound,
    ensures
        stack.len() <= bound,
    decreases bound,
{
    if stack.len() > 0 {
        assert(stack[0].0 < bound);
        let last = bound - 1;
        if exists|i: int| 0 <= i < stack.len() && (#[trigger] stack[i]).0 as int == last {
            let at = choose|i: int| 0 <= i < stack.len() && (#[trigger] stack[i]).0 as int == last;
            let rest = stack.remove(at);
            assert forall|i: int| 0 <= i < rest.len() implies (#[trigger] rest[i]).0 < bound
                - 1 by {
                let j = if i < at {
                    i
                } else {
                    i + 1
                };
                assert(rest[i] == stack[j]);
                if stack[j].0 == last {
                    assert(stack[j] == stack[at]);
                }
            }
            assert(rest.no_duplicates()) by {
                assert forall|i: int, j: int|
                    0 <= i < rest.len() && 0 <= j < rest.len() && i != j implies rest[i]
                    != rest[j] by {
                    let p = if i < at {
                        i
                    } else {
                        i + 1
                    };
                    let q = if j < at {
                        j
                    } else {
                        j + 1
                    };
                    assert(rest[i] == stack[p] && rest[j] == stack[q]);
                }
            }
            distinct_are_few(rest, (bound - 1) as nat);
        } else {
            assert forall|i: int| 0 <= i < stack.len() implies (#[trigger] stack[i]).0 < bound
                - 1 by {
                if stack[i].0 >= bound - 1 {
                    assert(stack[i].0 == last);
                }
            }
            distinct_are_few(stack, (bound - 1) as nat);
        }
    }
}

/// However many crossings a plain type was given, as many as there are entries
/// are enough.
proof fn few_crossings(t: TableV, ty: TyV, n: nat, stack: Seq<InferenceVar>)
    requires
        t.plain_within(ty, n),
        stack.no_duplicates(),
        forall|i: int| 0 <= i < stack.len() ==> t.holds(#[trigger] stack[i]),
        all_deeper(t, stack, n),
        stack.len() <= t.entries.len(),
    ensures
        t.plain_within(ty, (t.entries.len() - stack.len()) as nat),
    decreases n, ty,
{
    match ty {
        TyV::Var(var) => match t.shallow(ty) {
            TyV::Var(_) => {},
            bound => {
                let m = crossing(t, ty, n, stack);
                let root = t.find(var);
                let pushed = stack.push(root);
                assert(pushed.no_duplicates());
                distinct_are_few(pushed, t.entries.len());
                few_crossings(t, bound, (m - 1) as nat, pushed);
            },
        },
        _ => {
            let left = (t.entries.len() - stack.len()) as nat;
            assert forall|i: int| 0 <= i < ty.children().len() implies t.plain_within(
                #[trigger] ty.children()[i],
                left,
            ) by {
                types::child_decreases(ty, i);
                few_crossings(t, ty.children()[i], n, stack);
            }
            assert forall|i: int| 0 <= i < ty.children().len() implies t.full_within(
                #[trigger] ty.children()[i],
                left,
            ) == t.full_within(ty.children()[i], n) by {
                if n <= left {
                    more_crossings(t, ty.children()[i], n, left);
                } else {
                    more_crossings(t, ty.children()[i], left, n);
                }
            }
            assert(t.full_children(ty, left) =~= t.full_children(ty, n));
        },
    }
}

/// Plain within any number of crossings is plain, with every binding put in.
proof fn plain_at_last(t: TableV, ty: TyV, n: nat)
    requires
        t.plain_within(ty, n),
    ensures
        t.is_plain(ty),
        t.full(ty) == t.full_within(ty, n),
{
    few_crossings(t, ty, n, Seq::empty());
    if n <= t.entries.len() {
        more_crossings(t, ty, n, t.entries.len());
    } else {
        more_crossings(t, ty, t.entries.len(), n);
    }
}

/// Rebuilding a plain shape keeps it.
proof fn shape_is_kept(ty: TyV, parts: Seq<TyV>, others: Seq<TyV>)
    requires
        plain_shape(ty),
        parts.len() == ty.children().len(),
        others.len() == parts.len(),
    ensures
        plain_shape(ty.with_children(parts)),
        ty.with_children(parts).children() == parts,
        ty.with_children(parts).with_children(others) == ty.with_children(others),
{
    assert(ty.with_children(parts).children() =~= parts);
    if let TyV::Record(fields) = ty {
        let rebuilt = ty.with_children(parts);
        assert(rebuilt.with_children(others)->Record_0 =~= ty.with_children(others)->Record_0);
    }
}

/// Whether a type is a variable or has a plain shape.
spec fn is_flat(ty: TyV) -> bool {
    ty is Var || plain_shape(ty)
}

proof fn flat_types_splice_to_themselves(parts: Seq<TyV>)
    requires
        forall|i: int| 0 <= i < parts.len() ==> is_flat(#[trigger] parts[i]),
    ensures
        types::spliced(parts) == parts,
    decreases parts.len(),
{
    if parts.len() > 0 {
        let before = parts.drop_last();
        assert forall|i: int| 0 <= i < before.len() implies is_flat(#[trigger] before[i]) by {
            assert(before[i] == parts[i]);
        }
        flat_types_splice_to_themselves(before);
        assert(is_flat(parts[parts.len() - 1]));
        assert(before + seq![parts.last()] =~= parts);
    } else {
        assert(types::spliced(parts) =~= parts);
    }
}

proof fn same_types_are_one(parts: Seq<TyV>)
    requires
        all_same(parts),
        parts.len() > 0,
    ensures
        types::distinct(parts) == seq![parts[0]],
    decreases parts.len(),
{
    let before = parts.drop_last();
    assert(parts.last() == parts[0]);
    if before.len() > 0 {
        assert forall|i: int, j: int| 0 <= i < before.len() && 0 <= j < before.len() implies (
        #[trigger] before[i]) == #[trigger] before[j] by {
            assert(parts[i] == parts[j]);
        }
        same_types_are_one(before);
        assert(before[0] == parts[0]);
        assert(seq![parts[0]][0] == parts.last());
        assert(types::distinct(before).contains(parts.last()));
    } else {
        assert(types::distinct(before) =~= Seq::empty());
        assert(Seq::<TyV>::empty().push(parts.last()) =~= seq![parts[0]]);
    }
}

/// A union of flat types that are all the same is one of them.
proof fn union_of_the_same(parts: Seq<TyV>)
    requires
        all_same(parts),
        forall|i: int| 0 <= i < parts.len() ==> is_flat(#[trigger] parts[i]),
    ensures
        TyV::union_of(parts) == if parts.len() == 0 {
            TyV::Null
        } else {
            parts[0]
        },
{
    flat_types_splice_to_themselves(parts);
    if parts.len() == 0 {
        assert(types::distinct(parts) =~= Seq::empty());
    } else {
        same_types_are_one(parts);
        assert(is_flat(parts[0]));
    }
}

/// A plain type with every binding put in is flat.
proof fn full_is_flat(t: TableV, ty: TyV, n: nat)
    requires
        t.plain_within(ty, n),
    ensures
        is_flat(t.full_within(ty, n)),
    decreases n, ty,
{
    match ty {
        TyV::Var(_) => match t.shallow(ty) {
            TyV::Var(_) => {},
            bound => {
                full_is_flat(t, bound, (n - 1) as nat);
            },
        },
        _ => {
            let parts = t.full_children(ty, n);
            parts_are_flat(t, ty, n);
            if plain_shape(ty) {
                shape_is_kept(ty, parts, parts);
            } else {
                union_of_the_same(parts);
            }
        },
    }
}

proof fn parts_are_flat(t: TableV, ty: TyV, n: nat)
    requires
        t.plain_within(ty, n),
        ty !is Var,
    ensures
        t.full_children(ty, n).len() == ty.children().len(),
        forall|i: int|
            0 <= i < ty.children().len() ==> is_flat(#[trigger] t.full_children(ty, n)[i]),
    decreases n, ty, 0int,
{
    assert forall|i: int| 0 <= i < ty.children().len() implies is_flat(
        #[trigger] t.full_children(ty, n)[i],
    ) by {
        types::child_decreases(ty, i);
        full_child(t, ty, n, i);
        assert(t.plain_within(ty.children()[i], n));
        full_is_flat(t, ty.children()[i], n);
    }
}

/// Putting every binding in once is enough.
proof fn full_is_settled(t: TableV, ty: TyV, n: nat)
    requires
        t.leads_down(),
        t.plain_within(ty, n),
    ensures
        t.plain_within(t.full_within(ty, n), 0),
        t.full_within(t.full_within(ty, n), 0) == t.full_within(ty, n),
    decreases n, ty,
{
    match ty {
        TyV::Var(var) => {
            find_is_idempotent(t, var);
            let root = t.find(var);
            if t.holds(root) {
                assert(t.entries[root.0 as int].suits(root.0 as int));
            }
            match t.shallow(ty) {
                TyV::Var(_) => {},
                bound => {
                    full_is_settled(t, bound, (n - 1) as nat);
                },
            }
        },
        _ => {
            let parts = t.full_children(ty, n);
            let full = t.full_within(ty, n);
            parts_are_flat(t, ty, n);
            assert forall|i: int| 0 <= i < parts.len() implies t.plain_within(
                #[trigger] parts[i],
                0,
            ) && t.full_within(parts[i], 0) == parts[i] by {
                types::child_decreases(ty, i);
                full_child(t, ty, n, i);
                assert(t.plain_within(ty.children()[i], n));
                full_is_settled(t, ty.children()[i], n);
            }
            if plain_shape(ty) {
                shape_is_kept(ty, parts, parts);
                assert(full.children() == parts);
                assert forall|i: int| 0 <= i < full.children().len() implies t.plain_within(
                    #[trigger] full.children()[i],
                    0,
                ) by {
                    assert(t.plain_within(parts[i], 0));
                }
                assert(t.full_children(full, 0) =~= parts);
            } else {
                union_of_the_same(parts);
                if parts.len() == 0 {
                    assert(full.children() =~= Seq::empty());
                } else {
                    assert(t.plain_within(parts[0], 0));
                }
            }
        },
    }
}

/// Resolving a plain type puts every binding in.
proof fn resolving_puts_in(t: TableV, ty: TyV, n: nat, stack: Seq<InferenceVar>)
    requires
        t.plain_within(ty, n),
        all_deeper(t, stack, n),
        stack.len() + n <= t.entries.len(),
    ensures
        t.resolve_below(ty, stack) == t.full_within(ty, n),
    decreases n, ty,
{
    match ty {
        TyV::Var(var) => match t.shallow(ty) {
            TyV::Var(_) => {},
            bound => {
                let m = crossing(t, ty, n, stack);
                let pushed = stack.push(t.find(var));
                resolving_puts_in(t, bound, (m - 1) as nat, pushed);
                more_crossings(t, bound, (m - 1) as nat, (n - 1) as nat);
            },
        },
        _ => {
            assert forall|i: int| 0 <= i < ty.children().len() implies #[trigger] t.resolve_below(
                ty.children()[i],
                stack,
            ) == t.full_within(ty.children()[i], n) by {
                types::child_decreases(ty, i);
                resolving_puts_in(t, ty.children()[i], n, stack);
            }
            let resolved = t.resolve_children(ty, stack);
            let full = t.full_children(ty, n);
            assert forall|i: int| 0 <= i < resolved.len() implies resolved[i] == full[i] by {
                assert(resolved[i] == t.resolve_below(ty.children()[i], stack));
                full_child(t, ty, n, i);
            }
            assert(resolved =~= full);
            full_is_flat(t, ty, n);
        },
    }
}

proof fn resolved_is_full(t: TableV, ty: TyV)
    requires
        t.is_plain(ty),
    ensures
        t.resolve(ty) == t.full(ty),
{
    resolving_puts_in(t, ty, t.entries.len(), Seq::empty());
}

/// The type with a variable replaced.
spec fn put(ty: TyV, var: InferenceVar, by: TyV) -> TyV
    decreases ty, 1int,
{
    match ty {
        TyV::Var(own) => if own == var {
            by
        } else {
            ty
        },
        _ => ty.with_children(put_in_children(ty, var, by)),
    }
}

spec fn put_in_children(ty: TyV, var: InferenceVar, by: TyV) -> Seq<TyV>
    decreases ty, 0int,
{
    proof {
        assert forall|i: int| 0 <= i < ty.children().len() implies decreases_to!(
            ty => ty.children()[i]
        ) by {
            types::child_decreases(ty, i);
        }
    }
    Seq::new(
        ty.children().len(),
        |i: int|
            if 0 <= i < ty.children().len() {
                put(ty.children()[i], var, by)
            } else {
                TyV::Any
            },
    )
}

/// Replacing in a rebuilt type replaces in its parts.
proof fn put_in_parts(ty: TyV, parts: Seq<TyV>, others: Seq<TyV>, var: InferenceVar, by: TyV)
    requires
        plain_shape(ty),
        parts.len() == ty.children().len(),
        others.len() == parts.len(),
        forall|i: int| 0 <= i < parts.len() ==> #[trigger] others[i] == put(parts[i], var, by),
    ensures
        put(ty.with_children(parts), var, by) == ty.with_children(others),
{
    let rebuilt = ty.with_children(parts);
    shape_is_kept(ty, parts, others);
    assert(put_in_children(rebuilt, var, by) =~= others);
}

/// Replacing in a union of the same replaces in its members.
proof fn put_in_members(parts: Seq<TyV>, others: Seq<TyV>, var: InferenceVar, by: TyV)
    requires
        all_same(parts),
        forall|i: int| 0 <= i < parts.len() ==> is_flat(#[trigger] parts[i]),
        others.len() == parts.len(),
        forall|i: int| 0 <= i < others.len() ==> is_flat(#[trigger] others[i]),
        forall|i: int| 0 <= i < parts.len() ==> #[trigger] others[i] == put(parts[i], var, by),
    ensures
        all_same(others),
        put(TyV::union_of(parts), var, by) == TyV::union_of(others),
{
    assert forall|i: int, j: int| 0 <= i < others.len() && 0 <= j < others.len() implies (
    #[trigger] others[i]) == #[trigger] others[j] by {
        assert(parts[i] == parts[j]);
    }
    union_of_the_same(parts);
    union_of_the_same(others);
    if parts.len() > 0 {
        assert(others[0] == put(parts[0], var, by));
    }
}

/// Whether two tables differ at most in the levels of unbound variables.
spec fn alike(t: TableV, u: TableV) -> bool {
    &&& t.entries.len() == u.entries.len()
    &&& forall|i: int|
        #![trigger t.entries[i]]
        #![trigger u.entries[i]]
        0 <= i < t.entries.len() ==> t.entries[i] == u.entries[i] || (t.entries[i] is Unbound
            && u.entries[i] is Unbound)
}

proof fn lowering_is_alike(t: TableV, level: u32, ty: TyV, n: nat)
    ensures
        alike(t, t.lowered_within(level, ty, n)),
    decreases n, ty, 1int, 0int,
{
    match ty {
        TyV::Var(_) => match t.shallow(ty) {
            TyV::Var(_) => {},
            bound => {
                if n > 0 {
                    lowering_is_alike(t, level, bound, (n - 1) as nat);
                }
            },
        },
        _ => lowering_children_is_alike(t, level, ty, 0, n),
    }
}

proof fn lowering_children_is_alike(t: TableV, level: u32, ty: TyV, from: int, n: nat)
    ensures
        alike(t, t.children_lowered(level, ty, from, n)),
    decreases n, ty, 0int, ty.children().len() - from,
{
    if 0 <= from < ty.children().len() {
        types::child_decreases(ty, from);
        let next = t.lowered_within(level, ty.children()[from], n);
        lowering_is_alike(t, level, ty.children()[from], n);
        lowering_children_is_alike(next, level, ty, from + 1, n);
    }
}

/// Whether a table has bound an unbound variable to a type, and differs from
/// another in levels beside that.
spec fn binds(t: TableV, u: TableV, root: InferenceVar, ty: TyV) -> bool {
    &&& t.leads_down()
    &&& t.holds(root)
    &&& t.entries[root.0 as int] is Unbound
    &&& ty !is Var
    &&& t.entries.len() == u.entries.len()
    &&& u.entries[root.0 as int] == EntryV::Bound(ty)
    &&& forall|i: int|
        #![trigger t.entries[i]]
        #![trigger u.entries[i]]
        0 <= i < t.entries.len() && i != root.0 ==> t.entries[i] == u.entries[i] || (
        t.entries[i] is Unbound && u.entries[i] is Unbound)
}

proof fn binding_keeps_find(t: TableV, u: TableV, root: InferenceVar, ty: TyV, var: InferenceVar)
    requires
        binds(t, u, root, ty),
    ensures
        u.find(var) == t.find(var),
    decreases var.0,
{
    if t.holds(var) {
        if let EntryV::Redirect(to) = t.entries[var.0 as int] {
            binding_keeps_find(t, u, root, ty, to);
        }
    }
}

proof fn binding_changes_one(t: TableV, u: TableV, root: InferenceVar, ty: TyV, var: InferenceVar)
    requires
        binds(t, u, root, ty),
    ensures
        u.shallow(TyV::Var(var)) == if t.shallow(TyV::Var(var)) == TyV::Var(root) {
            ty
        } else {
            t.shallow(TyV::Var(var))
        },
{
    binding_keeps_find(t, u, root, ty, var);
    find_is_idempotent(t, var);
}

/// A type in which the bound variable does not stand is not changed.
proof fn binding_leaves_others(
    t: TableV,
    u: TableV,
    root: InferenceVar,
    ty: TyV,
    other: TyV,
    n: nat,
)
    requires
        binds(t, u, root, ty),
        t.plain_within(other, n),
        !t.occurs_within(root, other, n),
    ensures
        u.plain_within(other, n),
        u.full_within(other, n) == t.full_within(other, n),
    decreases n, other,
{
    match other {
        TyV::Var(var) => {
            binding_changes_one(t, u, root, ty, var);
            match t.shallow(other) {
                TyV::Var(own) => {
                    find_is_idempotent(t, var);
                    assert(own == t.find(var));
                },
                bound => {
                    binding_leaves_others(t, u, root, ty, bound, (n - 1) as nat);
                },
            }
        },
        _ => {
            assert forall|i: int| 0 <= i < other.children().len() implies u.plain_within(
                #[trigger] other.children()[i],
                n,
            ) && u.full_within(other.children()[i], n) == t.full_within(
                other.children()[i],
                n,
            ) by {
                types::child_decreases(other, i);
                binding_leaves_others(t, u, root, ty, other.children()[i], n);
            }
            assert(u.full_children(other, n) =~= t.full_children(other, n));
        },
    }
}

/// Binding puts the type in the variable's places.
proof fn binding_puts_in(
    t: TableV,
    u: TableV,
    root: InferenceVar,
    ty: TyV,
    k: nat,
    other: TyV,
    n: nat,
)
    requires
        binds(t, u, root, ty),
        t.plain_within(ty, k),
        !t.occurs_within(root, ty, k),
        t.plain_within(other, n),
    ensures
        u.plain_within(other, n + k + 1),
        u.full_within(other, n + k + 1) == put(t.full_within(other, n), root, t.full_within(ty, k)),
    decreases n, other,
{
    let by = t.full_within(ty, k);
    match other {
        TyV::Var(var) => {
            binding_changes_one(t, u, root, ty, var);
            match t.shallow(other) {
                TyV::Var(own) => {
                    if own == root {
                        binding_leaves_others(t, u, root, ty, ty, k);
                        more_crossings(u, ty, k, n + k);
                    }
                },
                bound => {
                    binding_puts_in(t, u, root, ty, k, bound, (n - 1) as nat);
                },
            }
        },
        _ => {
            let parts = t.full_children(other, n);
            let others = u.full_children(other, n + k + 1);
            assert forall|i: int| 0 <= i < other.children().len() implies u.plain_within(
                #[trigger] other.children()[i],
                n + k + 1,
            ) && u.full_within(other.children()[i], n + k + 1) == put(
                t.full_within(other.children()[i], n),
                root,
                by,
            ) by {
                types::child_decreases(other, i);
                binding_puts_in(t, u, root, ty, k, other.children()[i], n);
            }
            assert forall|i: int| 0 <= i < parts.len() implies #[trigger] others[i] == put(
                parts[i],
                root,
                by,
            ) by {
                full_child(t, other, n, i);
                full_child(u, other, n + k + 1, i);
            }
            if plain_shape(other) {
                put_in_parts(other, parts, others, root, by);
            } else {
                parts_are_flat(t, other, n);
                assert forall|i: int| 0 <= i < others.len() implies is_flat(
                    #[trigger] others[i],
                ) by {
                    full_child(u, other, n + k + 1, i);
                    full_is_flat(u, other.children()[i], n + k + 1);
                }
                put_in_members(parts, others, root, by);
            }
        },
    }
}

/// Whether a table has tied one unbound variable to an older one.
spec fn ties(t: TableV, u: TableV, winner: InferenceVar, loser: InferenceVar) -> bool {
    &&& t.leads_down()
    &&& winner.0 < loser.0
    &&& t.holds(loser)
    &&& t.entries[winner.0 as int] is Unbound
    &&& t.entries[loser.0 as int] is Unbound
    &&& t.entries.len() == u.entries.len()
    &&& u.entries[winner.0 as int] is Unbound
    &&& u.entries[loser.0 as int] == EntryV::Redirect(winner)
    &&& forall|i: int|
        #![trigger t.entries[i]]
        #![trigger u.entries[i]]
        0 <= i < t.entries.len() && i != winner.0 && i != loser.0 ==> t.entries[i]
            == u.entries[i]
}

proof fn tying_redirects(
    t: TableV,
    u: TableV,
    winner: InferenceVar,
    loser: InferenceVar,
    var: InferenceVar,
)
    requires
        ties(t, u, winner, loser),
    ensures
        u.find(var) == if t.find(var) == loser {
            winner
        } else {
            t.find(var)
        },
    decreases var.0,
{
    if t.holds(var) {
        if let EntryV::Redirect(to) = t.entries[var.0 as int] {
            tying_redirects(t, u, winner, loser, to);
        }
        if var == loser {
            assert(u.find(winner) == winner);
        }
    }
}

/// Tying puts the older variable in the younger one's places.
proof fn tying_puts_in(
    t: TableV,
    u: TableV,
    winner: InferenceVar,
    loser: InferenceVar,
    other: TyV,
    n: nat,
)
    requires
        ties(t, u, winner, loser),
        t.plain_within(other, n),
    ensures
        u.plain_within(other, n),
        u.full_within(other, n) == put(t.full_within(other, n), loser, TyV::Var(winner)),
    decreases n, other,
{
    let by = TyV::Var(winner);
    match other {
        TyV::Var(var) => {
            tying_redirects(t, u, winner, loser, var);
            match t.shallow(other) {
                TyV::Var(_) => {},
                bound => {
                    assert(u.shallow(other) == bound);
                    tying_puts_in(t, u, winner, loser, bound, (n - 1) as nat);
                },
            }
        },
        _ => {
            let parts = t.full_children(other, n);
            let others = u.full_children(other, n);
            assert forall|i: int| 0 <= i < other.children().len() implies u.plain_within(
                #[trigger] other.children()[i],
                n,
            ) && u.full_within(other.children()[i], n) == put(
                t.full_within(other.children()[i], n),
                loser,
                by,
            ) by {
                types::child_decreases(other, i);
                tying_puts_in(t, u, winner, loser, other.children()[i], n);
            }
            assert forall|i: int| 0 <= i < parts.len() implies #[trigger] others[i] == put(
                parts[i],
                loser,
                by,
            ) by {
                full_child(t, other, n, i);
                full_child(u, other, n, i);
            }
            if plain_shape(other) {
                put_in_parts(other, parts, others, loser, by);
            } else {
                parts_are_flat(t, other, n);
                assert forall|i: int| 0 <= i < others.len() implies is_flat(
                    #[trigger] others[i],
                ) by {
                    full_child(u, other, n, i);
                    full_is_flat(u, other.children()[i], n);
                }
                put_in_members(parts, others, loser, by);
            }
        },
    }
}

/// Whether what is plain in one table is plain in another, and what is the same
/// there is the same here.
spec fn keeps(t: TableV, u: TableV) -> bool {
    &&& u.leads_down()
    &&& t.entries.len() == u.entries.len()
    &&& forall|c: TyV| t.is_plain(c) ==> #[trigger] u.is_plain(c)
    &&& forall|c: TyV, d: TyV|
        t.is_plain(c) && t.is_plain(d) && t.full(c) == t.full(d) ==> #[trigger] u.full(c)
            == #[trigger] u.full(d)
}

proof fn binding_keeps(t: TableV, u: TableV, root: InferenceVar, ty: TyV)
    requires
        binds(t, u, root, ty),
        t.is_plain(ty),
        !t.occurs(root, ty),
    ensures
        keeps(t, u),
        u.full(TyV::Var(root)) == u.full(ty),
{
    let n = t.entries.len();
    assert forall|c: TyV| t.is_plain(c) implies #[trigger] u.is_plain(c) && u.full(c) == put(
        t.full(c),
        root,
        t.full(ty),
    ) by {
        binding_puts_in(t, u, root, ty, n, c, n);
        plain_at_last(u, c, n + n + 1);
    }
    assert forall|c: TyV, d: TyV|
        t.is_plain(c) && t.is_plain(d) && t.full(c) == t.full(d) implies #[trigger] u.full(c)
        == #[trigger] u.full(d) by {
        assert(u.is_plain(c) && u.is_plain(d));
    }
    assert(t.find(root) == root);
    assert(t.shallow(TyV::Var(root)) == TyV::Var(root));
    assert(t.is_plain(TyV::Var(root)));
    assert(u.is_plain(TyV::Var(root)));
    binding_changes_one(t, u, root, ty, root);
    binding_leaves_others(t, u, root, ty, ty, n);
    assert(u.full(TyV::Var(root)) == put(TyV::Var(root), root, t.full(ty)));
}

proof fn tying_keeps(t: TableV, u: TableV, winner: InferenceVar, loser: InferenceVar)
    requires
        ties(t, u, winner, loser),
    ensures
        keeps(t, u),
        u.full(TyV::Var(winner)) == u.full(TyV::Var(loser)),
{
    let n = t.entries.len();
    assert forall|c: TyV| t.is_plain(c) implies #[trigger] u.is_plain(c) && u.full(c) == put(
        t.full(c),
        loser,
        TyV::Var(winner),
    ) by {
        tying_puts_in(t, u, winner, loser, c, n);
    }
    assert forall|c: TyV, d: TyV|
        t.is_plain(c) && t.is_plain(d) && t.full(c) == t.full(d) implies #[trigger] u.full(c)
        == #[trigger] u.full(d) by {
        assert(u.is_plain(c) && u.is_plain(d));
    }
    tying_redirects(t, u, winner, loser, winner);
    tying_redirects(t, u, winner, loser, loser);
}

/// A variable's binding is as plain as the variable, and the same.
proof fn shallow_is_the_same(t: TableV, ty: TyV)
    requires
        t.leads_down(),
        t.is_plain(ty),
    ensures
        t.is_plain(t.shallow(ty)),
        t.full(t.shallow(ty)) == t.full(ty),
        t.shallow(t.shallow(ty)) == t.shallow(ty),
        t.shallow(ty) !is Var ==> plain_shape(t.shallow(ty)) || t.shallow(ty) is Union,
        t.shallow(ty) matches TyV::Var(root) ==> t.holds(root) && t.find(root) == root,
{
    if let TyV::Var(var) = ty {
        find_is_idempotent(t, var);
        let root = t.find(var);
        if t.holds(root) {
            assert(t.entries[root.0 as int].suits(root.0 as int));
        }
        match t.shallow(ty) {
            TyV::Var(_) => {},
            bound => {
                let n = t.entries.len();
                more_crossings(t, bound, (n - 1) as nat, n);
            },
        }
    }
}

/// Whether pairs are those of another list, each with its sides exchanged.
spec fn are_exchanged(pairs: Seq<(TyV, TyV)>, exchanged: Seq<(TyV, TyV)>) -> bool {
    &&& pairs.len() == exchanged.len()
    &&& forall|i: int|
        0 <= i < pairs.len() ==> (#[trigger] exchanged[i]).0 == pairs[i].1 && exchanged[i].1
            == pairs[i].0
}

/// Two plain shapes unify part by part or not at all.
proof fn plain_step(t: TableV, a: TyV, b: TyV)
    requires
        plain_shape(a),
        plain_shape(b),
    ensures
        match table::unify_step(t, a, b) {
            UnifyStepV::Pairs(pairs) => {
                &&& a.children().len() == pairs.len()
                &&& b.children().len() == pairs.len()
                &&& forall|i: int|
                    0 <= i < pairs.len() ==> #[trigger] pairs[i] == (
                        a.children()[i],
                        b.children()[i],
                    )
                &&& table::unify_step(t, b, a) matches UnifyStepV::Pairs(exchanged)
                    && are_exchanged(pairs, exchanged)
                &&& forall|parts: Seq<TyV>|
                    parts.len() == pairs.len() ==> #[trigger] a.with_children(parts)
                        == b.with_children(parts)
            },
            UnifyStepV::Refuse => table::unify_step(t, b, a) is Refuse,
            _ => false,
        },
{
    match (a, b) {
        (TyV::Record(left), TyV::Record(right)) => {
            if table::same_field_shape(left, right) {
                assert(table::same_field_shape(right, left)) by {
                    assert forall|i: int|
                        #![trigger right[i]]
                        0 <= i < right.len() implies right[i].name == left[i].name
                        && right[i].optional == left[i].optional by {
                        assert(left[i].name == right[i].name);
                    }
                }
                assert forall|parts: Seq<TyV>|
                    parts.len() == left.len() implies #[trigger] a.with_children(parts)
                    == b.with_children(parts) by {
                    let own = a.with_children(parts)->Record_0;
                    let other = b.with_children(parts)->Record_0;
                    assert forall|i: int| 0 <= i < own.len() implies own[i] == other[i] by {
                        assert(left[i].name == right[i].name);
                    }
                    assert(own =~= other);
                }
            } else if table::same_field_shape(right, left) {
                assert forall|i: int|
                    #![trigger left[i]]
                    0 <= i < left.len() implies left[i].name == right[i].name
                    && left[i].optional == right[i].optional by {
                    assert(right[i].name == left[i].name);
                }
            }
        },
        _ => {},
    }
}

/// Tying does not depend on which variable comes first.
proof fn tying_is_symmetric(t: TableV, a: InferenceVar, b: InferenceVar)
    requires
        t.leads_down(),
        a != b,
        t.holds(a),
        t.holds(b),
        t.entries[a.0 as int] is Unbound,
        t.entries[b.0 as int] is Unbound,
    ensures
        t.tie(a, b) == t.tie(b, a),
        keeps(t, t.tie(a, b)),
        t.tie(a, b).full(TyV::Var(a)) == t.tie(a, b).full(TyV::Var(b)),
{
    let u = t.tie(a, b);
    if a.0 < b.0 {
        tying_keeps(t, u, a, b);
    } else {
        tying_keeps(t, u, b, a);
    }
}

/// An unbound representative.
proof fn representative_is_unbound(t: TableV, var: InferenceVar)
    requires
        t.leads_down(),
        t.holds(var),
        t.shallow(TyV::Var(var)) == TyV::Var(var),
        t.find(var) == var,
    ensures
        t.entries[var.0 as int] is Unbound,
{
    if let EntryV::Redirect(to) = t.entries[var.0 as int] {
        found_is_older(t, to);
    }
}

proof fn found_is_older(t: TableV, var: InferenceVar)
    ensures
        t.find(var).0 <= var.0,
    decreases var.0,
{
    if t.holds(var) {
        if let EntryV::Redirect(to) = t.entries[var.0 as int] {
            if to.0 < var.0 {
                found_is_older(t, to);
            }
        }
    }
}

proof fn bound_agrees(t: TableV, var: InferenceVar, ty: TyV)
    requires
        t.leads_down(),
        t.holds(var),
        t.find(var) == var,
        t.entries[var.0 as int] is Unbound,
        t.is_plain(ty),
        ty !is Var,
        t.bind(var, ty).1 is Ok,
    ensures
        keeps(t, t.bind(var, ty).0),
        t.bind(var, ty).0.full(TyV::Var(var)) == t.bind(var, ty).0.full(ty),
{
    let u = t.bind(var, ty).0;
    if let EntryV::Unbound { level, .. } = t.entries[var.0 as int] {
        let lowered = t.lowered_within(level, ty, t.entries.len());
        lowering_is_alike(t, level, ty, t.entries.len());
        assert(u == lowered.set(var, EntryV::Bound(ty)));
        binding_keeps(t, u, var, ty);
    }
}

/// What a unification of plain types gives.
spec fn agrees(
    t: TableV,
    after: (TableV, Result<(), table::UnifyErrorV>),
    turned: (TableV, Result<(), table::UnifyErrorV>),
) -> bool {
    &&& after.0 == turned.0
    &&& after.1 is Ok == turned.1 is Ok
    &&& after.1 is Ok ==> keeps(t, after.0)
}

proof fn unified_agree(t: TableV, a: TyV, b: TyV, budget: nat)
    requires
        t.leads_down(),
        t.is_plain(a),
        t.is_plain(b),
    ensures
        agrees(t, t.unify_within(a, b, budget), t.unify_within(b, a, budget)),
        t.unify_within(a, b, budget).1 is Ok ==> t.unify_within(a, b, budget).0.full(a)
            == t.unify_within(a, b, budget).0.full(b),
    decreases budget, 1int, 0int,
{
    let left = t.shallow(a);
    let right = t.shallow(b);
    let (u, outcome) = t.unify_within(a, b, budget);
    shallow_is_the_same(t, a);
    shallow_is_the_same(t, b);
    if left != right {
        match (left, right) {
            (TyV::Var(one), TyV::Var(other)) => {
                representative_is_unbound(t, one);
                representative_is_unbound(t, other);
                tying_is_symmetric(t, one, other);
            },
            (TyV::Var(one), _) => {
                representative_is_unbound(t, one);
                if outcome is Ok {
                    bound_agrees(t, one, right);
                }
            },
            (_, TyV::Var(other)) => {
                representative_is_unbound(t, other);
                if outcome is Ok {
                    bound_agrees(t, other, left);
                }
            },
            (TyV::Union(_), TyV::Union(_)) => {
                let n = t.entries.len();
                let one = t.full(left);
                let other = t.full(right);
                resolved_is_full(t, left);
                resolved_is_full(t, right);
                full_is_flat(t, left, n);
                full_is_flat(t, right, n);
                full_is_settled(t, left, n);
                full_is_settled(t, right, n);
                more_crossings(t, one, 0, n);
                more_crossings(t, other, 0, n);
                if one != other && budget > 0 {
                    let pairs = seq![(one, other)];
                    let exchanged = seq![(other, one)];
                    pairs_agree(t, pairs, exchanged, 0, (budget - 1) as nat);
                    if outcome is Ok {
                        assert(u.full(pairs[0].0) == u.full(pairs[0].1));
                        assert(u.full(left) == u.full(one));
                        assert(u.full(right) == u.full(other));
                    }
                }
            },
            (TyV::Union(_), _) => {},
            (_, TyV::Union(_)) => {},
            _ => {
                plain_step(t, left, right);
                if let UnifyStepV::Pairs(pairs) = table::unify_step(t, left, right) {
                    let exchanged = table::unify_step(t, right, left)->Pairs_0;
                    if budget > 0 {
                        pairs_agree(t, pairs, exchanged, 0, (budget - 1) as nat);
                        if outcome is Ok {
                            parts_make_the_whole(u, left, right, pairs);
                        }
                    }
                }
            },
        }
        if outcome is Ok {
            assert(u.full(left) == u.full(right));
            assert(u.full(a) == u.full(left));
            assert(u.full(b) == u.full(right));
        }
    }
}

proof fn parts_make_the_whole(u: TableV, a: TyV, b: TyV, pairs: Seq<(TyV, TyV)>)
    requires
        plain_shape(a),
        plain_shape(b),
        a.children().len() == pairs.len(),
        b.children().len() == pairs.len(),
        forall|i: int|
            0 <= i < pairs.len() ==> #[trigger] pairs[i] == (a.children()[i], b.children()[i]),
        forall|parts: Seq<TyV>|
            parts.len() == pairs.len() ==> #[trigger] a.with_children(parts)
                == b.with_children(parts),
        forall|i: int| 0 <= i < pairs.len() ==> u.full((#[trigger] pairs[i]).0) == u.full(
            pairs[i].1,
        ),
    ensures
        u.full(a) == u.full(b),
{
    let n = u.entries.len();
    let parts = u.full_children(a, n);
    let others = u.full_children(b, n);
    assert forall|i: int| 0 <= i < parts.len() implies parts[i] == others[i] by {
        full_child(u, a, n, i);
        full_child(u, b, n, i);
        assert(u.full(pairs[i].0) == u.full(pairs[i].1));
    }
    assert(parts =~= others);
    assert(a.with_children(parts) == b.with_children(parts));
}

proof fn pairs_agree(
    t: TableV,
    pairs: Seq<(TyV, TyV)>,
    exchanged: Seq<(TyV, TyV)>,
    from: int,
    budget: nat,
)
    requires
        t.leads_down(),
        are_exchanged(pairs, exchanged),
        0 <= from <= pairs.len(),
        forall|i: int|
            0 <= i < pairs.len() ==> t.is_plain((#[trigger] pairs[i]).0) && t.is_plain(pairs[i].1),
        forall|i: int| 0 <= i < from ==> t.full((#[trigger] pairs[i]).0) == t.full(pairs[i].1),
    ensures
        agrees(t, t.unify_pairs(pairs, from, budget), t.unify_pairs(exchanged, from, budget)),
        t.unify_pairs(pairs, from, budget).1 is Ok ==> forall|i: int|
            0 <= i < pairs.len() ==> t.unify_pairs(pairs, from, budget).0.full(
                (#[trigger] pairs[i]).0,
            ) == t.unify_pairs(pairs, from, budget).0.full(pairs[i].1),
    decreases budget, 2int, pairs.len() - from,
{
    if from < pairs.len() {
        let (a, b) = pairs[from];
        assert(exchanged[from] == (b, a));
        unified_agree(t, a, b, budget);
        let (u, outcome) = t.unify_within(a, b, budget);
        if outcome is Ok {
            assert forall|i: int| 0 <= i < pairs.len() implies u.is_plain((#[trigger] pairs[i]).0)
                && u.is_plain(pairs[i].1) by {
                assert(t.is_plain(pairs[i].0) && t.is_plain(pairs[i].1));
            }
            assert forall|i: int| 0 <= i < from + 1 implies u.full((#[trigger] pairs[i]).0)
                == u.full(pairs[i].1) by {
                if i < from {
                    assert(t.is_plain(pairs[i].0) && t.is_plain(pairs[i].1));
                    assert(t.full(pairs[i].0) == t.full(pairs[i].1));
                }
            }
            pairs_agree(u, pairs, exchanged, from + 1, budget);
            keeping_goes_on(t, u, u.unify_pairs(pairs, from + 1, budget));
        }
    }
}

proof fn keeping_goes_on(
    t: TableV,
    u: TableV,
    after: (TableV, Result<(), table::UnifyErrorV>),
)
    requires
        keeps(t, u),
        after.1 is Ok ==> keeps(u, after.0),
    ensures
        after.1 is Ok ==> keeps(t, after.0),
{
    if after.1 is Ok {
        let v = after.0;
        assert forall|c: TyV| t.is_plain(c) implies #[trigger] v.is_plain(c) by {
            assert(u.is_plain(c));
        }
        assert forall|c: TyV, d: TyV|
            t.is_plain(c) && t.is_plain(d) && t.full(c) == t.full(d) implies #[trigger] v.full(c)
            == #[trigger] v.full(d) by {
            assert(u.is_plain(c) && u.is_plain(d));
            assert(u.full(c) == u.full(d));
        }
    }
}

/// Unifying two plain types comes to the same with the sides exchanged: both
/// succeed or neither, and the table is the same after either.
pub proof fn unification_is_symmetric(t: TableV, a: TyV, b: TyV)
    requires
        t.wf(),
        t.is_plain(a),
        t.is_plain(b),
    ensures
        t.unify(a, b).1 is Ok == t.unify(b, a).1 is Ok,
        t.unify(a, b).0 == t.unify(b, a).0,
{
    unified_agree(t, a, b, usize::MAX as nat);
}

/// Two plain types that unify resolve alike afterwards.
pub proof fn unified_types_resolve_alike(t: TableV, a: TyV, b: TyV)
    requires
        t.wf(),
        t.is_plain(a),
        t.is_plain(b),
        t.unify(a, b).1 is Ok,
    ensures
        t.unify(a, b).0.resolve(a) == t.unify(a, b).0.resolve(b),
{
    let u = t.unify(a, b).0;
    unified_agree(t, a, b, usize::MAX as nat);
    assert(u.is_plain(a) && u.is_plain(b));
    resolved_is_full(u, a);
    resolved_is_full(u, b);
}

} // verus!
