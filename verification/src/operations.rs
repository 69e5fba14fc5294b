//! What operations give where the modes are not known: the laws of arithmetic on
//! variables, of operator methods, and of values of a class.

use vstd::prelude::*;

use crate::arithmetic;
use crate::building;
use crate::checking::{CheckV, ItemV};
use crate::findings::TypeErrorKindV;
use crate::hir::{Argument, BinaryOperator, ExprId, ExpressionKind, Module};
use crate::overloads::CallV;
use crate::operands;
use crate::syntax::TextRange;
use crate::table::TableV;
use crate::types::{Atomic, InferenceVar, TyV};
use crate::walk;

verus! {

/// Arithmetic on a variable and a single number gives what the number forces:
/// double where it is one or where the operator always gives one, else whatever
/// the variable is. The sides do not matter.
pub proof fn a_variable_follows_a_single_number(
    c: CheckV,
    m: Module,
    range: TextRange,
    ranges: (TextRange, TextRange),
    var: InferenceVar,
    mode: Atomic,
    always_double: bool,
)
    requires
        mode == Atomic::Logical || mode == Atomic::Integer || mode == Atomic::Double,
    ensures
        ({
            let flexible = TyV::Var(var);
            let number = TyV::Scalar(mode);
            let outcome = c.arithmetic(m, range, ranges, flexible, number, always_double);
            &&& outcome.1 == if always_double || mode == Atomic::Double {
                TyV::Scalar(Atomic::Double)
            } else {
                flexible
            }
            &&& outcome.0 == c.constrain_numeric(m, range, flexible)
            &&& c.arithmetic(m, range, ranges, number, flexible, always_double) == outcome
        }),
{
    let flexible = TyV::Var(var);
    let number = TyV::Scalar(mode);
    assert(operands::numeric_part(flexible) is None);
    assert(operands::numeric_part(number) is Some);
}

/// Arithmetic on a variable and a vector of numbers gives a vector of doubles,
/// whichever side the vector stands on.
pub proof fn a_variable_follows_a_vector(
    c: CheckV,
    m: Module,
    range: TextRange,
    ranges: (TextRange, TextRange),
    var: InferenceVar,
    mode: Atomic,
    always_double: bool,
)
    requires
        mode == Atomic::Logical || mode == Atomic::Integer || mode == Atomic::Double,
    ensures
        ({
            let flexible = TyV::Var(var);
            let vector = TyV::Vector(Box::new(TyV::Scalar(mode)));
            let outcome = c.arithmetic(m, range, ranges, flexible, vector, always_double);
            &&& outcome.1 == TyV::Vector(Box::new(TyV::Scalar(Atomic::Double)))
            &&& c.arithmetic(m, range, ranges, vector, flexible, always_double) == outcome
        }),
{
    let flexible = TyV::Var(var);
    let vector = TyV::Vector(Box::new(TyV::Scalar(mode)));
    assert(operands::numeric_part(flexible) is None);
    assert(operands::numeric_part(vector) is Some);
}

/// Nothing is known of arithmetic on what is unknown, and nothing is reported.
pub proof fn arithmetic_on_the_unknown_is_unknown(
    c: CheckV,
    m: Module,
    range: TextRange,
    ranges: (TextRange, TextRange),
    unknown: TyV,
    other: TyV,
    always_double: bool,
)
    requires
        unknown is Unknown || unknown is Any,
        operands::numeric_part(other) is Some || other is Unknown || other is Any || other is Var,
    ensures
        c.arithmetic(m, range, ranges, unknown, other, always_double) == (c, TyV::Unknown),
        c.arithmetic(m, range, ranges, other, unknown, always_double) == (c, TyV::Unknown),
{
}

/// Text, `NULL`, lists and functions are no operands of arithmetic: the one that
/// is wrong is reported, the left one where both are.
pub proof fn only_numbers_are_computed_with(
    c: CheckV,
    m: Module,
    range: TextRange,
    ranges: (TextRange, TextRange),
    wrong: TyV,
    other: TyV,
    always_double: bool,
)
    requires
        wrong == TyV::Scalar(Atomic::Character) || wrong is Null || wrong is List
            || wrong is Function || wrong is Record || wrong is Tuple,
        operands::numeric_part(other) is Some,
    ensures
        ({
            let left = c.arithmetic(m, range, ranges, wrong, other, always_double);
            let right = c.arithmetic(m, range, ranges, other, wrong, always_double);
            let both = c.arithmetic(m, range, ranges, wrong, wrong, always_double);
            &&& left.1 is Unknown
            &&& right.1 is Unknown
            &&& left.0.errors.len() == c.errors.len() + 1
            &&& right.0.errors.len() == c.errors.len() + 1
            &&& both.0.errors.len() == c.errors.len() + 1
            &&& left.0.errors.last().range == ranges.0
            &&& right.0.errors.last().range == ranges.1
            &&& both.0.errors.last().range == ranges.0
            &&& left.0.errors.last().kind is InvalidOperand
            &&& right.0.errors.last().kind is InvalidOperand
        }),
{
}

/// The methods of the left operand are asked before those of the right one.
pub proof fn the_left_operand_is_asked_first(
    item: ItemV,
    t: TableV,
    operator: BinaryOperator,
    left: TyV,
    right: TyV,
)
    ensures
        item.operator_candidates(t, operator, left, right) == item.operator_candidates(
            t,
            operator,
            left,
            TyV::Null,
        ) + item.operator_candidates(t, operator, TyV::Null, right),
        item.operator_candidates(t, operator, TyV::Null, TyV::Null).len() == 0,
{
    assert(arithmetic::class_of(t, TyV::Null) is None);
    let spelling = operands::spelling_of(operator);
    let group = operands::group_of(operator);
    if spelling is Some && group is Some {
        let first = item.class_candidates(spelling->0, group->0, arithmetic::class_of(t, left));
        let second = item.class_candidates(spelling->0, group->0, arithmetic::class_of(t, right));
        let nothing = item.class_candidates(spelling->0, group->0, None);
        assert(first + nothing =~= first);
        assert(nothing + second =~= second);
    }
    assert(item.operator_candidates(t, operator, left, right) =~= item.operator_candidates(
        t,
        operator,
        left,
        TyV::Null,
    ) + item.operator_candidates(t, operator, TyV::Null, right));
}

/// A method of a class for an operator stands under the operator's own spelling,
/// then under the name of its group, then under the name for all of them.
pub proof fn an_own_method_comes_before_its_group(
    item: ItemV,
    t: TableV,
    operator: BinaryOperator,
    class: Seq<char>,
    arguments: Seq<TyV>,
)
    requires
        operands::is_arithmetic(operator) || operands::is_comparison(operator),
    ensures
        ({
            let group = if operands::is_arithmetic(operator) {
                "Arith"@
            } else {
                "Compare"@
            };
            let own = crate::spellings::binary_text(operator)->0;
            item.operator_candidates(t, operator, TyV::Named(class, arguments), TyV::Null)
                == item.method_candidates(own + "."@ + class) + item.method_candidates(
                group + "."@ + class,
            ) + item.method_candidates("Ops"@ + "."@ + class)
        }),
{
    reveal_strlit(".");
    let class_ty = TyV::Named(class, arguments);
    let own = crate::spellings::binary_text(operator)->0;
    let group = operands::group_of(operator)->0;
    assert(arithmetic::class_of(t, class_ty) == Some(class));
    assert(arithmetic::class_of(t, TyV::Null) is None);
    assert(operands::spelling_of(operator) == Some(own));
    assert(arithmetic::method_name(own, class) =~= own + "."@ + class);
    assert(arithmetic::method_name(group, class) =~= group + "."@ + class);
    assert(arithmetic::method_name("Ops"@, class) =~= "Ops"@ + "."@ + class);
    let first = item.class_candidates(own, group, Some(class));
    assert(first + item.class_candidates(own, group, None) =~= first);
}

/// An operator without a method is the built-in one; with methods, the first that
/// fits gives the result, and where none fits the pair is reported as it stands.
pub proof fn a_method_replaces_the_operator(
    c: CheckV,
    item: ItemV,
    operator: BinaryOperator,
    call: CallV,
    left: TyV,
    right: TyV,
)
    requires
        operands::is_arithmetic(operator) || operands::is_comparison(operator),
    ensures
        ({
            let candidates = item.operator_candidates(c.table, operator, left, right);
            let outcome = c.operator_method(item, operator, call, left, right);
            let fit = c.table.first_fit(call, candidates, 0);
            &&& candidates.len() == 0 <==> outcome is None
            &&& candidates.len() > 0 && fit is Some ==> {
                &&& (outcome->0).1 == (fit->0).1.ret
                &&& (outcome->0).0.errors == c.errors
            }
            &&& candidates.len() > 0 && fit is None ==> {
                &&& (outcome->0).1 is Unknown
                &&& (outcome->0).0.errors.len() == c.errors.len() + 1
                &&& (outcome->0).0.errors.last().kind == (TypeErrorKindV::UnsupportedOperandPair {
                    operator: (crate::spellings::binary_text(operator)->0),
                    left,
                    right,
                })
            }
        }),
{
}

proof fn classes_are_the_same(types: Seq<TyV>, from: int, seen: Option<TyV>)
    requires
        0 <= from <= types.len(),
        seen is Some ==> seen->0 is Named,
    ensures
        match building::uniform_nominal(types, from, seen) {
            Some(class) => {
                &&& class is Named
                &&& seen is Some ==> class == seen->0
                &&& forall|i: int|
                    from <= i < types.len() ==> (#[trigger] types[i]) is Null || types[i] == class
                &&& seen is None ==> exists|i: int|
                    from <= i < types.len() && (#[trigger] types[i]) == class
            },
            None => {
                ||| exists|i: int|
                    from <= i < types.len() && !((#[trigger] types[i]) is Null || types[i] is Named)
                ||| exists|i: int|
                    from <= i < types.len() && (#[trigger] types[i]) is Named && seen is Some
                        && types[i] != seen->0
                ||| exists|i: int, j: int|
                    from <= i < types.len() && from <= j < types.len() && (#[trigger] types[i])
                        is Named && (#[trigger] types[j]) is Named && types[i] != types[j]
                ||| seen is None && forall|i: int|
                    from <= i < types.len() ==> (#[trigger] types[i]) is Null
            },
        },
    decreases types.len() - from,
{
    if from < types.len() {
        let first = types[from];
        if first is Null {
            classes_are_the_same(types, from + 1, seen);
        } else if first is Named {
            if seen is Some {
                if seen->0 == first {
                    classes_are_the_same(types, from + 1, seen);
                }
            } else {
                classes_are_the_same(types, from + 1, Some(first));
                assert(types[from] == first);
            }
        }
    }
}

/// What is combined has a class where all that is not `NULL` is of that one class,
/// and the class says how to combine.
pub proof fn combined_values_keep_their_one_class(item: ItemV, types: Seq<TyV>, i: int)
    requires
        0 <= i < types.len(),
    ensures
        match item.combined_class(types) {
            Some(class) => {
                &&& class is Named
                &&& types[i] is Null || types[i] == class
                &&& item.declares_method("c"@ + "."@ + class->Named_0)
                &&& exists|k: int| 0 <= k < types.len() && (#[trigger] types[k]) == class
            },
            None => types[i] is Named && item.declares_method("c"@ + "."@ + types[i]->Named_0)
                ==> exists|k: int|
                0 <= k < types.len() && !((#[trigger] types[k]) is Null) && types[k] != types[i],
        },
{
    reveal_strlit(".");
    classes_are_the_same(types, 0, None);
    match building::uniform_nominal(types, 0, None) {
        Some(class) => {
            assert(arithmetic::method_name("c"@, class->Named_0) =~= "c"@ + "."@
                + class->Named_0);
        },
        None => {},
    }
}

/// A name is tested for in an expression where `missing` is called on it there or
/// in a part of it; the inside of a function is its own.
pub proof fn a_test_for_a_missing_formal_is_found(m: Module, id: ExprId, name: Seq<char>)
    requires
        forall|i: int|
            0 <= i < m.kind_of(id).children().len() ==> (#[trigger] m.kind_of(id).children()[i]).0
                < id.0,
    ensures
        m.kind_of(id) is Function ==> !operands::missing_tested(m, id).contains(name),
        m.kind_of(id) !is Function ==> (operands::missing_tested(m, id).contains(name)
            <==> operands::tests_missing(m, id) == Some(name) || exists|i: int|
            0 <= i < m.kind_of(id).children().len() && operands::missing_tested(
                m,
                #[trigger] m.kind_of(id).children()[i],
            ).contains(name)),
{
    if m.kind_of(id) !is Function {
        tests_add_up(m, id, m.kind_of(id).children(), 0, name);
    }
}

proof fn tests_add_up(m: Module, bound: ExprId, ids: Seq<ExprId>, from: int, name: Seq<char>)
    requires
        0 <= from <= ids.len(),
        forall|i: int| 0 <= i < ids.len() ==> (#[trigger] ids[i]).0 < bound.0,
    ensures
        operands::missing_tested_in(m, bound, ids, from).contains(name) <==> exists|i: int|
            from <= i < ids.len() && operands::missing_tested(m, #[trigger] ids[i]).contains(name),
    decreases ids.len() - from,
{
    if from < ids.len() {
        tests_add_up(m, bound, ids, from + 1, name);
        assert(ids[from].0 < bound.0);
    }
}

/// `missing` tests the one formal that it names.
pub proof fn missing_tests_the_formal_it_names(m: Module, id: ExprId)
    ensures
        match m.kind_of(id) {
            ExpressionKind::Call { callee, arguments } => operands::tests_missing(m, id) is Some
                ==> {
                &&& m.name_of(callee) == Some("missing"@)
                &&& arguments@.len() == 1
                &&& arguments@[0].name is None
                &&& arguments@[0].value is Some
                &&& operands::tests_missing(m, id) == m.name_of(arguments@[0].value->0)
            },
            _ => operands::tests_missing(m, id) is None,
        },
        match m.kind_of(id) {
            ExpressionKind::Call { callee, arguments } => m.name_of(callee) == Some("missing"@)
                && arguments@.len() == 1 && arguments@[0].name is None && arguments@[0].value is Some
                ==> operands::tests_missing(m, id) == m.name_of(arguments@[0].value->0),
            _ => true,
        },
{
}

/// What an expression ends in is what its last statement ends in, or what either
/// arm of its branch ends in.
pub proof fn the_ends_of_an_expression(m: Module, id: ExprId)
    ensures
        match m.kind_of(id) {
            ExpressionKind::Block { statements, trailing_semicolon } => {
                &&& !trailing_semicolon && statements@.len() > 0 && statements@.last().0 < id.0
                    ==> operands::tail_expressions(m, id) == operands::tail_expressions(
                    m,
                    statements@.last(),
                )
                &&& trailing_semicolon || statements@.len() == 0 ==> operands::tail_expressions(
                    m,
                    id,
                ) == seq![id]
            },
            ExpressionKind::If { then_branch, else_branch, .. } => match else_branch {
                Some(other) => then_branch.0 < id.0 && other.0 < id.0
                    ==> operands::tail_expressions(m, id) == operands::tail_expressions(
                    m,
                    then_branch,
                ) + operands::tail_expressions(m, other),
                None => operands::tail_expressions(m, id) == seq![id],
            },
            _ => operands::tail_expressions(m, id) == seq![id],
        },
{
}

/// A subset of a table is a table where it selects rows alone, where it groups,
/// and where its second part is one of the forms that give columns.
pub proof fn a_subset_of_a_table_is_a_table(m: Module, arguments: Seq<Argument>, i: int)
    ensures
        arguments.len() == 0 ==> operands::keeps_class(m, arguments),
        arguments.len() == 1 && arguments[0].name is None ==> operands::keeps_class(m, arguments),
        arguments.len() == 2 && arguments[0].name is None && arguments[1].name is None
            && arguments[1].value is Some ==> (operands::keeps_class(m, arguments) <==> match m.kind_of(
            arguments[1].value->0,
        ) {
            ExpressionKind::Call { callee, .. } => m.name_of(callee) == Some(":="@) || m.name_of(
                callee,
            ) == Some("."@) || m.name_of(callee) == Some("list"@),
            _ => false,
        }),
        0 <= i < arguments.len() && (crate::types::opt_text(arguments[i].name) == Some("by"@)
            || crate::types::opt_text(arguments[i].name) == Some("keyby"@))
            ==> operands::keeps_class(m, arguments),
{
    named_is_found(arguments, "j"@, 0, 0);
    named_is_found(arguments, "by"@, 0, i);
    named_is_found(arguments, "keyby"@, 0, i);
    named_is_found(arguments, "by"@, 0, 0);
    named_is_found(arguments, "keyby"@, 0, 0);
    reveal_with_fuel(walk::argument_unnamed, 4);
    reveal_with_fuel(walk::argument_named, 4);
}

proof fn named_is_found(arguments: Seq<Argument>, name: Seq<char>, from: int, i: int)
    requires
        0 <= from,
    ensures
        from <= i < arguments.len() && crate::types::opt_text(arguments[i].name) == Some(name)
            ==> walk::argument_named(arguments, name, from) is Some,
        match walk::argument_named(arguments, name, from) {
            Some(k) => from <= k < arguments.len() && crate::types::opt_text(arguments[k].name)
                == Some(name),
            None => true,
        },
    decreases arguments.len() - from,
{
    if from < arguments.len() {
        named_is_found(arguments, name, from + 1, i);
    }
}

} // verus!
