//! What type variables stand for: the laws of constraints, of generalizing and
//! instantiating, and of the parameters of declared types.

use vstd::prelude::*;

use crate::annotations::DefinitionV;
use crate::checking::{self, CheckV};
use crate::hir::{ExprId, Module};
use crate::table::{self, EntryV, TableV, Variance};
use crate::types::{self, Atomic, Constraint, FunctionV, InferenceVar, TyV};

verus! {

/// Whether a variable is one that nothing is known of but a constraint.
pub open spec fn is_open(t: TableV, var: InferenceVar) -> bool {
    t.holds(var) && t.entries[var.0 as int] is Unbound
}

/// The constraint on a variable.
pub open spec fn constraint_on(t: TableV, var: InferenceVar) -> Constraint {
    t.entries[var.0 as int]->Unbound_constraint
}

/// What each constraint asks of a single value and of a vector: integers and
/// doubles are numbers, every single value may be an element, and only a single
/// number is both.
pub proof fn constraints_ask_for_numbers_and_elements(t: TableV, mode: Atomic)
    ensures
        ({
            let number = mode == Atomic::Integer || mode == Atomic::Double;
            let single = TyV::Scalar(mode);
            let vector = TyV::Vector(Box::new(single));
            let named = TyV::NamedVector(Box::new(single));
            &&& t.admits(Constraint::Numeric, single) == number
            &&& t.admits(Constraint::Numeric, vector) == number
            &&& t.admits(Constraint::Numeric, named) == number
            &&& t.admits(Constraint::AtomicElement, single)
            &&& !t.admits(Constraint::AtomicElement, vector)
            &&& !t.admits(Constraint::AtomicElement, named)
            &&& t.admits(Constraint::ScalarNumeric, single) == number
            &&& !t.admits(Constraint::ScalarNumeric, vector)
            &&& !t.admits(Constraint::ScalarNumeric, named)
        }),
{
}

/// Nothing is asked without a constraint, nothing is asked of what is unknown, and
/// no constraint is met by `NULL`, a list or a function.
pub proof fn constraints_ask_for_values(t: TableV, constraint: Constraint, ty: TyV)
    ensures
        t.admits(Constraint::Unconstrained, ty),
        t.admits(constraint, TyV::Any),
        t.admits(constraint, TyV::Unknown),
        constraint != Constraint::Unconstrained && (ty is Null || ty is List || ty is NamedList
            || ty is Tuple || ty is Record || ty is Function) ==> !t.admits(constraint, ty),
{
}

/// A value that meets two number constraints at once meets each; for a single
/// value or a vector that holds of any two constraints.
pub proof fn a_joined_constraint_asks_for_both(t: TableV, a: Constraint, b: Constraint, ty: TyV)
    requires
        ty is Scalar || ty is Vector || ty is NamedVector,
    ensures
        t.admits(a.joined(b), ty) <==> t.admits(a, ty) && t.admits(b, ty),
{
}

/// Constraining an open variable asks for the new constraint and for what was
/// asked before; a bound one is held to it, and nothing changes.
pub proof fn constraining_adds_a_demand(t: TableV, var: InferenceVar, constraint: Constraint)
    requires
        t.holds(var),
        t.find(var) == var,
    ensures
        ({
            let (after, outcome) = t.constrain(var, constraint);
            &&& is_open(t, var) ==> {
                &&& outcome is Ok
                &&& is_open(after, var)
                &&& constraint_on(after, var) == constraint_on(t, var).joined(constraint)
                &&& after.entries[var.0 as int]->level == t.entries[var.0 as int]->level
            }
            &&& t.entries[var.0 as int] is Bound ==> {
                &&& after == t
                &&& outcome is Ok <==> t.admits(constraint, t.entries[var.0 as int]->Bound_0)
            }
        }),
{
}

/// Two variables that are tied are one from then on: it keeps what was asked of
/// either, and the outer of the two levels.
pub proof fn tied_variables_are_one(t: TableV, a: InferenceVar, b: InferenceVar)
    requires
        is_open(t, a),
        is_open(t, b),
        a != b,
    ensures
        ({
            let after = t.tie(a, b);
            let root = after.find(a);
            let left = t.entries[a.0 as int]->level;
            let right = t.entries[b.0 as int]->level;
            &&& after.find(b) == root
            &&& is_open(after, root)
            &&& constraint_on(after, root) == constraint_on(t, a).joined(constraint_on(t, b))
            &&& after.entries[root.0 as int]->level <= left
            &&& after.entries[root.0 as int]->level <= right
            &&& after.entries[root.0 as int]->level == left || after.entries[root.0 as int]->level
                == right
        }),
{
    let after = t.tie(a, b);
    let (winner, loser) = if a.0 <= b.0 {
        (a, b)
    } else {
        (b, a)
    };
    assert(after.entries[loser.0 as int] == EntryV::Redirect(winner));
    assert(after.entries[winner.0 as int] is Unbound);
    assert(after.find(winner) == winner);
    assert(after.find(loser) == after.find(winner));
}

/// An open variable takes a single value exactly where its constraint admits it,
/// on whichever side it stands; it is that value from then on.
pub proof fn a_variable_takes_what_its_constraint_admits(
    t: TableV,
    var: InferenceVar,
    mode: Atomic,
)
    requires
        is_open(t, var),
    ensures
        ({
            let single = TyV::Scalar(mode);
            let (after, outcome) = t.unify(TyV::Var(var), single);
            &&& outcome is Ok <==> t.admits(constraint_on(t, var), single)
            &&& outcome is Ok ==> after.shallow(TyV::Var(var)) == single
            &&& outcome is Err ==> after == t
            &&& t.unify(single, TyV::Var(var)).0 == after
        }),
{
    let single = TyV::Scalar(mode);
    assert(t.find(var) == var);
    assert(t.shallow(TyV::Var(var)) == TyV::Var(var));
    assert(t.shallow(single) == single);
    assert(single.children() =~= Seq::<TyV>::empty());
    assert(!t.occurs(var, single));
    let (after, outcome) = t.bind(var, single);
    let lowered = t.lowered_within(
        t.entries[var.0 as int]->level,
        single,
        t.entries.len(),
    );
    assert(t.children_lowered(t.entries[var.0 as int]->level, single, 0, t.entries.len()) == t);
    assert(lowered == t);
    if outcome is Ok {
        assert(after.entries[var.0 as int] == EntryV::Bound(single));
        assert(after.find(var) == var);
    }
    assert(t.unify(TyV::Var(var), single) == (after, outcome));
    assert(t.unify(single, TyV::Var(var)) == (after, outcome));
}

/// Every binder of a scheme gets a variable of its own, as fresh as the table is
/// long, under the binder's constraint and at the table's level.
pub proof fn every_binder_gets_a_variable(
    t: TableV,
    binders: Seq<(Seq<char>, Constraint)>,
    from: int,
    done: Seq<(Seq<char>, TyV)>,
    i: int,
)
    requires
        0 <= from <= i < binders.len(),
        done.len() == from,
        t.entries.len() + binders.len() - from <= u32::MAX,
    ensures
        ({
            let (after, substitution) = t.fresh_binders(binders, from, done);
            let at = t.entries.len() + i - from;
            &&& after.entries.len() == t.entries.len() + binders.len() - from
            &&& substitution.len() == binders.len()
            &&& substitution[i].0 == binders[i].0
            &&& substitution[i].1 == TyV::Var(InferenceVar(at as u32))
            &&& after.entries[at] == (EntryV::Unbound {
                level: t.level,
                constraint: binders[i].1,
            })
        }),
    decreases binders.len() - from,
{
    binders_are_added(
        t.with_fresh(binders[from].1),
        binders,
        from + 1,
        done.push((binders[from].0, TyV::Var(t.next_var()))),
    );
    if from < i {
        every_binder_gets_a_variable(
            t.with_fresh(binders[from].1),
            binders,
            from + 1,
            done.push((binders[from].0, TyV::Var(t.next_var()))),
            i,
        );
    }
}

proof fn binders_are_added(
    t: TableV,
    binders: Seq<(Seq<char>, Constraint)>,
    from: int,
    done: Seq<(Seq<char>, TyV)>,
)
    requires
        0 <= from <= binders.len(),
    ensures
        ({
            let (after, substitution) = t.fresh_binders(binders, from, done);
            &&& after.entries.len() == t.entries.len() + binders.len() - from
            &&& substitution.len() == done.len() + binders.len() - from
            &&& forall|k: int|
                0 <= k < t.entries.len() ==> #[trigger] after.entries[k] == t.entries[k]
            &&& forall|k: int| 0 <= k < done.len() ==> #[trigger] substitution[k] == done[k]
        }),
    decreases binders.len() - from,
{
    if from < binders.len() {
        binders_are_added(
            t.with_fresh(binders[from].1),
            binders,
            from + 1,
            done.push((binders[from].0, TyV::Var(t.next_var()))),
        );
    }
}

/// A substitution replaces the names it lists, by what stands last for each, and
/// no others.
pub proof fn substituting_replaces_the_listed_names(
    substitution: Seq<(Seq<char>, TyV)>,
    name: Seq<char>,
    ty: TyV,
    other: Seq<char>,
)
    ensures
        TyV::Rigid(name).substitute(substitution.push((name, ty))) == ty,
        other != name ==> TyV::Rigid(other).substitute(substitution.push((name, ty)))
            == TyV::Rigid(other).substitute(substitution),
        TyV::Rigid(name).substitute(Seq::empty()) == TyV::Rigid(name),
{
    let longer = substitution.push((name, ty));
    assert(longer.drop_last() =~= substitution);
    assert(types::replacement(longer, name) == Some(ty));
    assert(other != name ==> types::replacement(longer, other) == types::replacement(
        substitution,
        other,
    ));
}

/// What is generalized is what belongs to the value: a variable from further out
/// stays a variable, one from inside becomes a binder under its constraint.
pub proof fn only_inner_variables_are_generalized(t: TableV, var: InferenceVar)
    requires
        is_open(t, var),
    ensures
        ({
            let scheme = t.generalize(TyV::Var(var));
            let outer = t.entries[var.0 as int]->level <= t.level;
            &&& outer ==> scheme.binders.len() == 0 && scheme.body == TyV::Var(var)
            &&& !outer ==> {
                &&& scheme.binders.len() == 1
                &&& scheme.binders[0].1 == constraint_on(t, var)
                &&& scheme.body == TyV::Rigid(scheme.binders[0].0)
            }
        }),
{
    an_open_variable_resolves_to_itself(t, var);
    let bound: checking::BoundVarsV = Seq::empty();
    assert(checking::bound_place(bound, var, 0) is None);
    assert(t.abstracted(TyV::Var(var), bound).1.len() <= 1);
}

proof fn an_open_variable_resolves_to_itself(t: TableV, var: InferenceVar)
    requires
        is_open(t, var),
    ensures
        t.find(var) == var,
        t.resolve(TyV::Var(var)) == TyV::Var(var),
{
    assert(t.find(var) == var);
}

/// One variable is one binder, wherever it occurs; two variables are two.
pub proof fn a_variable_is_one_binder(t: TableV, a: InferenceVar, b: InferenceVar)
    requires
        is_open(t, a),
        is_open(t, b),
        t.entries[a.0 as int]->level > t.level,
        t.entries[b.0 as int]->level > t.level,
    ensures
        ({
            let none: checking::BoundVarsV = Seq::empty();
            let (first, bound) = t.abstracted(TyV::Var(a), none);
            let (second, after) = t.abstracted(TyV::Var(b), bound);
            &&& first is Rigid
            &&& second is Rigid
            &&& a == b ==> second == first && after == bound
            &&& a != b ==> second != first && after.len() == bound.len() + 1
        }),
{
    let none: checking::BoundVarsV = Seq::empty();
    assert(t.find(a) == a && t.find(b) == b);
    assert(checking::bound_place(none, a, 0) is None);
    let (first, bound) = t.abstracted(TyV::Var(a), none);
    assert(bound =~= seq![(a, constraint_on(t, a))]);
    reveal_with_fuel(checking::bound_place, 3);
    assert(checking::binder_name(0) == seq!['T']);
    assert(checking::binder_name(1) == seq!['U']);
    assert(seq!['T'][0] != seq!['U'][0]);
}

/// A binder that is declared is under the constraint that it is declared with; it
/// hides an earlier one of its name, and no other.
pub proof fn a_declared_binder_hides_its_name(
    binders: Seq<(Seq<char>, Constraint)>,
    name: Seq<char>,
    constraint: Constraint,
    other: Seq<char>,
)
    ensures
        table::binder_constraint(table::with_binder(binders, name, constraint), name) == Some(
            constraint,
        ),
        other != name ==> table::binder_constraint(
            table::with_binder(binders, name, constraint),
            other,
        ) == table::binder_constraint(binders, other),
    decreases binders.len(),
{
    let after = table::with_binder(binders, name, constraint);
    if binders.len() == 0 {
        assert(after.last() == (name, constraint));
        assert(after.drop_last() =~= binders);
        assert(table::binder_constraint(binders, other) is None);
    } else if binders.last().0 == name {
        assert(after.last() == (name, constraint));
        assert(after.drop_last() =~= binders.drop_last());
    } else {
        a_declared_binder_hides_its_name(binders.drop_last(), name, constraint, other);
        assert(after.last() == binders.last());
        assert(after.drop_last() =~= table::with_binder(binders.drop_last(), name, constraint));
    }
}

/// Formals turn the sign of what they hold, results and containers keep it.
pub proof fn formals_turn_the_sign(name: Seq<char>, inner: TyV, positive: bool)
    ensures
        TyV::Rigid(name).occurs_signed(name, true),
        !TyV::Rigid(name).occurs_signed(name, false),
        TyV::Vector(Box::new(inner)).occurs_signed(name, positive) == inner.occurs_signed(
            name,
            positive,
        ),
        TyV::NamedVector(Box::new(inner)).occurs_signed(name, positive) == inner.occurs_signed(
            name,
            positive,
        ),
        TyV::List(Box::new(inner)).occurs_signed(name, positive) == inner.occurs_signed(
            name,
            positive,
        ),
        TyV::NamedList(Box::new(inner)).occurs_signed(name, positive) == inner.occurs_signed(
            name,
            positive,
        ),
        TyV::Function(
            Box::new(
                FunctionV {
                    positional: seq![inner],
                    named: Seq::empty(),
                    variadic: None,
                    ret: TyV::Null,
                },
            ),
        ).occurs_signed(name, positive) == inner.occurs_signed(name, !positive),
        TyV::Function(
            Box::new(
                FunctionV {
                    positional: Seq::empty(),
                    named: Seq::empty(),
                    variadic: None,
                    ret: inner,
                },
            ),
        ).occurs_signed(name, positive) == inner.occurs_signed(name, positive),
{
    reveal_with_fuel(TyV::occurs_signed, 2);
    let formals = seq![inner];
    assert(formals[0] == inner);
    let taking = FunctionV {
        positional: formals,
        named: Seq::empty(),
        variadic: None,
        ret: TyV::Null,
    };
    let null = TyV::Null;
    assert(!null.occurs_signed(name, positive));
    assert(taking.positional[0] == inner);
}

/// A parameter of a declared type varies with what it gives, against what it
/// takes, neither way where it does both, and either way where it does nothing.
pub proof fn a_parameter_varies_with_its_use(definition: DefinitionV, i: int)
    requires
        0 <= i < definition.parameters.len(),
        table::is_first(definition.parameters, i),
    ensures
        ({
            let gives = definition.body.occurs_signed(definition.parameters[i], true);
            let takes = definition.body.occurs_signed(definition.parameters[i], false);
            definition.variance(i) == match (gives, takes) {
                (true, true) => Variance::Invariant,
                (true, false) => Variance::Covariant,
                (false, true) => Variance::Contravariant,
                (false, false) => Variance::Bivariant,
            }
        }),
{
}

/// A value that is made one of a declared class has that class, with the arguments
/// that are given; an alias makes no class.
pub proof fn a_new_value_has_its_class(
    c: CheckV,
    m: Module,
    name: Seq<char>,
    given: Seq<TyV>,
    value: ExprId,
    ty: TyV,
)
    ensures
        c.table.definition(name) is None || (c.table.definition(name)->0).alias ==> c.new_nominal(
            m,
            name,
            given,
            value,
            ty,
        ) == (c, c.table.generalize(ty)),
        c.table.definition(name) is Some && !(c.table.definition(name)->0).alias && (
        c.table.definition(name)->0).parameters.len() == given.len() ==> {
            let outcome = c.new_nominal(m, name, given, value, ty);
            outcome.1 == outcome.0.table.generalize(TyV::Named(name, given))
        },
{
}

/// Containers of one kind unify as their elements do; containers of two kinds do
/// not unify, nor does a container with a single value.
pub proof fn containers_unify_with_their_like(t: TableV, a: Atomic, b: Atomic)
    ensures
        ({
            let x = Box::new(TyV::Scalar(a));
            let y = Box::new(TyV::Scalar(b));
            &&& t.unify(TyV::Vector(x), TyV::Vector(y)).1 is Ok <==> a == b
            &&& t.unify(TyV::NamedVector(x), TyV::NamedVector(y)).1 is Ok <==> a == b
            &&& t.unify(TyV::List(x), TyV::List(y)).1 is Ok <==> a == b
            &&& t.unify(TyV::NamedList(x), TyV::NamedList(y)).1 is Ok <==> a == b
            &&& t.unify(TyV::Vector(x), TyV::List(y)).1 is Err
            &&& t.unify(TyV::Vector(x), TyV::NamedVector(y)).1 is Err
            &&& t.unify(*x, TyV::Vector(y)).1 is Err
            &&& t.unify(TyV::Null, *y).1 is Err
        }),
{
    let x = TyV::Scalar(a);
    let y = TyV::Scalar(b);
    let below = (usize::MAX - 1) as nat;
    assert(t.unify_within(x, y, below).1 is Ok <==> a == b);
    assert(t.unify_within(x, y, below).0 == t);
    let pairs = seq![(x, y)];
    assert(pairs[0] == (x, y));
    assert(t.unify_pairs(pairs, 1, below) == (t, Ok::<(), table::UnifyErrorV>(())));
    assert(t.unify_pairs(pairs, 0, below).1 is Ok <==> a == b);
}

/// An alias is what it stands for; another declared name is itself.
pub proof fn an_alias_is_what_it_stands_for(t: TableV, name: Seq<char>, mode: Atomic)
    requires
        t.definition(name) is Some,
        (t.definition(name)->0).parameters.len() == 0,
        (t.definition(name)->0).body == TyV::Scalar(mode),
    ensures
        ({
            let named = TyV::Named(name, Seq::empty());
            t.resolve(named) == if (t.definition(name)->0).alias {
                TyV::Scalar(mode)
            } else {
                named
            }
        }),
{
    let named = TyV::Named(name, Seq::empty());
    let none: Seq<InferenceVar> = Seq::empty();
    assert(named.children() =~= Seq::<TyV>::empty());
    assert(t.resolve_children(named, none) =~= Seq::<TyV>::empty());
    let single = TyV::Scalar(mode);
    let marked = none.push(table::alias_mark());
    assert(t.resolve_below(single, marked) == single);
    assert(named.with_children(Seq::empty()) == named);
}

/// A name is undeclared where nothing declares it, and where it is declared with
/// another number of parameters; no other type is.
pub proof fn undeclared_names(t: TableV, name: Seq<char>, arguments: Seq<TyV>, other: TyV)
    ensures
        t.definition(name) is None ==> (t.undeclared(TyV::Named(name, arguments))
            <==> !t.vocabulary.nominals.contains(name)),
        t.definition(name) is Some ==> (t.undeclared(TyV::Named(name, arguments)) <==> (
        t.definition(name)->0).parameters.len() != arguments.len()),
        !(other is Named) ==> !t.undeclared(other),
{
}

/// A variable that is left in what is exported is unknown where nothing is asked
/// of it; else it is a new binder under its constraint.
pub proof fn a_left_variable_is_closed(t: TableV, var: InferenceVar, closer: checking::CloserV)
    requires
        is_open(t, var),
        !closer.generalized.dom().contains(var.0),
    ensures
        ({
            let (ty, after) = t.residual(var, closer);
            &&& constraint_on(t, var) == Constraint::Unconstrained ==> ty is Unknown && after
                == closer
            &&& constraint_on(t, var) != Constraint::Unconstrained ==> {
                &&& after.binders.len() == closer.binders.len() + 1
                &&& after.binders.last().1 == constraint_on(t, var)
                &&& ty == TyV::Rigid(after.binders.last().0)
                &&& t.residual(var, after) == (ty, after)
            }
        }),
{
    assert(t.find(var) == var);
}

/// An alias that stands for itself is a cycle, and a class that holds itself is
/// none.
pub proof fn an_alias_of_itself_is_a_cycle(
    definitions: Map<Seq<char>, DefinitionV>,
    name: Seq<char>,
    expansions: nat,
)
    requires
        table::declared(definitions, name) is Some,
        (table::declared(definitions, name)->0).body == TyV::Named(name, Seq::empty()),
        expansions > 0,
    ensures
        ({
            let named = TyV::Named(name, Seq::empty());
            let cycle = checking::alias_cycle(definitions, named, Seq::empty(), expansions);
            cycle == if (table::declared(definitions, name)->0).alias {
                Some(name)
            } else {
                None
            }
        }),
{
    let named = TyV::Named(name, Seq::empty());
    let none: Seq<Seq<char>> = Seq::empty();
    let once = none.push(name);
    let fewer = (expansions - 1) as nat;
    assert(named.children() =~= Seq::<TyV>::empty());
    assert(once[0] == name);
    assert(once.contains(name));
    assert(checking::alias_cycle_in(definitions, named, 0, once, fewer) is None);
    assert(checking::alias_cycle_in(definitions, named, 0, none, expansions) is None);
    assert((table::declared(definitions, name)->0).alias ==> checking::alias_cycle(
        definitions,
        named,
        once,
        fewer,
    ) == Some(name));
}

/// A value that may be `NULL` is told by its other member, wherever `NULL` stands.
pub proof fn a_nullable_value_has_one_other_member(ty: TyV, more: TyV)
    requires
        !(ty is Null),
        !(more is Null),
    ensures
        table::nullable_member(seq![ty, TyV::Null]) == Some(ty),
        table::nullable_member(seq![TyV::Null, ty]) == Some(ty),
        table::nullable_member(seq![ty, more]) is None,
        table::nullable_member(seq![ty, more, TyV::Null]) is None,
{
}

} // verus!
