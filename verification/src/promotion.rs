//! How modes and shapes combine: the laws of arithmetic, comparison, `c(...)`
//! and guards over operands whose types are known.

use vstd::prelude::*;

use crate::arithmetic;
use crate::checking::{CheckV, ItemV};
use crate::hir::{BinaryOperator, Module};
use crate::operands::{self, ComparisonFamily, GuardKind, NumericV, OperandShape, PartV};
use crate::syntax::TextRange;
use crate::types::{self, Atomic, TyV};
use crate::unions;

verus! {

/// The coercion hierarchy of `c(...)`: logical, integer, double, complex,
/// character, each below the next; `raw` combines only with itself.
pub proof fn modes_combine_upwards(mode: Atomic)
    ensures
        operands::combined(Atomic::Logical, Atomic::Integer) == Some(Atomic::Integer),
        operands::combined(Atomic::Integer, Atomic::Double) == Some(Atomic::Double),
        operands::combined(Atomic::Double, Atomic::Complex) == Some(Atomic::Complex),
        operands::combined(Atomic::Complex, Atomic::Character) == Some(Atomic::Character),
        operands::combined(Atomic::Raw, mode) == (if mode == Atomic::Raw {
            Some(mode)
        } else {
            None
        }),
        mode != Atomic::Raw ==> operands::combined(Atomic::Logical, mode) == Some(mode),
        mode != Atomic::Raw ==> operands::combined(mode, Atomic::Character) == Some(
            Atomic::Character,
        ),
{
}

/// What two modes combine to is one of them, and combines with each of them to
/// itself.
pub proof fn combining_gives_the_higher_mode(a: Atomic, b: Atomic)
    requires
        operands::combined(a, b) is Some,
    ensures
        operands::combined(a, b)->0 == a || operands::combined(a, b)->0 == b,
        operands::combined(a, operands::combined(a, b)->0) == operands::combined(a, b),
        operands::combined(b, operands::combined(a, b)->0) == operands::combined(a, b),
{
}

/// A type computes with numbers exactly where its mode combines with `double`
/// to `double`, and its values then have at least the mode of an integer.
pub proof fn numbers_are_the_modes_up_to_double(ty: TyV)
    ensures
        operands::numeric_part(ty) is Some <==> (operands::element_atomic(ty) is Some
            && operands::combined(operands::element_atomic(ty)->0, Atomic::Double) == Some(
            Atomic::Double,
        )),
        operands::numeric_part(ty) is Some ==> {
            &&& operands::combined(operands::element_atomic(ty)->0, Atomic::Integer) == Some(
                (operands::numeric_part(ty)->0).1,
            )
            &&& (operands::numeric_part(ty)->0).0 == OperandShape::Scalar <==> ty is Scalar
        },
{
}

/// Two numeric operands compute in the higher of their modes, an integer at
/// least, and in double where the operator always does. A double on either side
/// gives a double, two integers stay integer, and it does not matter which
/// operand stands first. The result is a vector where either operand is one.
pub proof fn arithmetic_computes_in_the_higher_mode(a: PartV, b: PartV, always_double: bool)
    requires
        a.1 == Atomic::Integer || a.1 == Atomic::Double,
        b.1 == Atomic::Integer || b.1 == Atomic::Double,
    ensures
        operands::numeric_result(a, b, always_double) == operands::numeric_result(
            b,
            a,
            always_double,
        ),
        always_double ==> operands::element_atomic(operands::numeric_result(a, b, always_double))
            == Some(Atomic::Double),
        !always_double ==> operands::element_atomic(operands::numeric_result(a, b, always_double))
            == operands::combined(a.1, b.1),
        operands::numeric_result(a, b, always_double) is Scalar <==> a.0 == OperandShape::Scalar
            && b.0 == OperandShape::Scalar,
{
}

/// Every pair of two lists of operands has its result among the results.
pub proof fn every_pair_has_its_result(
    left: Seq<PartV>,
    right: Seq<PartV>,
    always_double: bool,
    i: int,
    j: int,
)
    requires
        0 <= i < left.len(),
        0 <= j < right.len(),
    ensures
        operands::numeric_results(left, right, always_double, left.len()).contains(
            operands::numeric_result(left[i], right[j], always_double),
        ),
{
    pair_has_result(left, right, always_double, left.len(), i, j);
}

/// Every result of two lists of operands is that of a pair.
pub proof fn every_result_has_its_pair(
    left: Seq<PartV>,
    right: Seq<PartV>,
    always_double: bool,
    k: int,
) -> (pair: (int, int))
    requires
        0 <= k < operands::numeric_results(left, right, always_double, left.len()).len(),
    ensures
        0 <= pair.0 < left.len(),
        0 <= pair.1 < right.len(),
        operands::numeric_results(left, right, always_double, left.len())[k]
            == operands::numeric_result(left[pair.0], right[pair.1], always_double),
{
    result_has_pair(left, right, always_double, left.len(), k)
}

proof fn row_upto(a: PartV, others: Seq<PartV>, always_double: bool, upto: nat)
    requires
        upto <= others.len(),
    ensures
        operands::numeric_row(a, others, always_double, upto).len() == upto,
        forall|j: int|
            0 <= j < upto ==> #[trigger] operands::numeric_row(a, others, always_double, upto)[j]
                == operands::numeric_result(a, others[j], always_double),
    decreases upto,
{
    if upto > 0 {
        row_upto(a, others, always_double, (upto - 1) as nat);
    }
}

proof fn pair_has_result(
    left: Seq<PartV>,
    right: Seq<PartV>,
    always_double: bool,
    upto: nat,
    i: int,
    j: int,
)
    requires
        0 <= i < upto <= left.len(),
        0 <= j < right.len(),
    ensures
        operands::numeric_results(left, right, always_double, upto).contains(
            operands::numeric_result(left[i], right[j], always_double),
        ),
    decreases upto,
{
    let before = operands::numeric_results(left, right, always_double, (upto - 1) as nat);
    let row = operands::numeric_row(left[upto - 1], right, always_double, right.len());
    let all = operands::numeric_results(left, right, always_double, upto);
    let ty = operands::numeric_result(left[i], right[j], always_double);
    assert(all == before + row);
    if i < upto - 1 {
        pair_has_result(left, right, always_double, (upto - 1) as nat, i, j);
        let k = choose|k: int| 0 <= k < before.len() && before[k] == ty;
        assert(all[k] == ty);
    } else {
        row_upto(left[upto - 1], right, always_double, right.len());
        assert(row[j] == ty);
        assert(all[before.len() + j] == ty);
    }
}

proof fn result_has_pair(
    left: Seq<PartV>,
    right: Seq<PartV>,
    always_double: bool,
    upto: nat,
    k: int,
) -> (pair: (int, int))
    requires
        upto <= left.len(),
        0 <= k < operands::numeric_results(left, right, always_double, upto).len(),
    ensures
        0 <= pair.0 < upto,
        0 <= pair.1 < right.len(),
        operands::numeric_results(left, right, always_double, upto)[k] == operands::numeric_result(
            left[pair.0],
            right[pair.1],
            always_double,
        ),
    decreases upto,
{
    let before = operands::numeric_results(left, right, always_double, (upto - 1) as nat);
    let row = operands::numeric_row(left[upto - 1], right, always_double, right.len());
    let all = operands::numeric_results(left, right, always_double, upto);
    assert(all == before + row);
    if k < before.len() {
        assert(all[k] == before[k]);
        result_has_pair(left, right, always_double, (upto - 1) as nat, k)
    } else {
        row_upto(left[upto - 1], right, always_double, right.len());
        assert(all[k] == row[k - before.len()]);
        (upto - 1, k - before.len())
    }
}

/// A list of numeric operands: each computes in integer or in double.
pub open spec fn are_numeric(parts: Seq<PartV>) -> bool {
    forall|i: int|
        0 <= i < parts.len() ==> (#[trigger] parts[i]).1 == Atomic::Integer || parts[i].1
            == Atomic::Double
}

/// Exchanging the operands of an arithmetic operator leaves the results.
pub proof fn arithmetic_results_are_symmetric(
    left: Seq<PartV>,
    right: Seq<PartV>,
    always_double: bool,
    ty: TyV,
)
    requires
        are_numeric(left),
        are_numeric(right),
    ensures
        operands::numeric_results(left, right, always_double, left.len()).contains(ty)
            <==> operands::numeric_results(right, left, always_double, right.len()).contains(ty),
{
    one_way(left, right, always_double, ty);
    one_way(right, left, always_double, ty);
}

proof fn one_way(left: Seq<PartV>, right: Seq<PartV>, always_double: bool, ty: TyV)
    requires
        are_numeric(left),
        are_numeric(right),
    ensures
        operands::numeric_results(left, right, always_double, left.len()).contains(ty)
            ==> operands::numeric_results(right, left, always_double, right.len()).contains(ty),
{
    let results = operands::numeric_results(left, right, always_double, left.len());
    if results.contains(ty) {
        let k = choose|k: int| 0 <= k < results.len() && results[k] == ty;
        let pair = every_result_has_its_pair(left, right, always_double, k);
        arithmetic_computes_in_the_higher_mode(left[pair.0], right[pair.1], always_double);
        every_pair_has_its_result(right, left, always_double, pair.1, pair.0);
    }
}

/// An arithmetic operator on two types whose modes are numbers is accepted as it
/// stands, in either order alike. It computes in the higher of the two modes, an
/// integer at least, and in double where the operator always does; it gives a
/// single value exactly where both operands are one.
pub proof fn arithmetic_of_two_numbers(
    c: CheckV,
    m: Module,
    range: TextRange,
    ranges: (TextRange, TextRange),
    left: TyV,
    right: TyV,
    always_double: bool,
)
    requires
        operands::numeric_part(left) is Some,
        operands::numeric_part(right) is Some,
    ensures
        c.arithmetic(m, range, ranges, left, right, always_double).0 == c,
        c.arithmetic(m, range, ranges, left, right, always_double).1 == c.arithmetic(
            m,
            range,
            ranges,
            right,
            left,
            always_double,
        ).1,
        ({
            let result = c.arithmetic(m, range, ranges, left, right, always_double).1;
            let a = operands::element_atomic(left)->0;
            let b = operands::element_atomic(right)->0;
            &&& always_double ==> operands::element_atomic(result) == Some(Atomic::Double)
            &&& !always_double ==> operands::element_atomic(result) == operands::combined(
                Atomic::Integer,
                operands::combined(a, b)->0,
            )
            &&& result is Scalar <==> left is Scalar && right is Scalar
        }),
{
    let a = operands::numeric_part(left)->0;
    let b = operands::numeric_part(right)->0;
    assert(operands::numeric_operand(c.table, left) == NumericV::Concrete(seq![a]));
    assert(operands::numeric_operand(c.table, right) == NumericV::Concrete(seq![b]));
    one_result(a, b, always_double);
    one_result(b, a, always_double);
    unions::a_union_of_one_type_is_the_type(operands::numeric_result(a, b, always_double));
    unions::a_union_of_one_type_is_the_type(operands::numeric_result(b, a, always_double));
}

proof fn one_result(a: PartV, b: PartV, always_double: bool)
    ensures
        operands::numeric_results(seq![a], seq![b], always_double, 1) == seq![
            operands::numeric_result(a, b, always_double),
        ],
{
    let result = operands::numeric_result(a, b, always_double);
    reveal_with_fuel(operands::numeric_results, 2);
    reveal_with_fuel(operands::numeric_row, 2);
    assert(operands::numeric_row(a, seq![b], always_double, 1) =~= seq![result]);
    assert(operands::numeric_results(seq![a], seq![b], always_double, 1) =~= seq![result]);
}

/// `/` and `^` always give doubles; the other arithmetic operators keep two
/// integers integer.
pub proof fn division_and_powers_are_double(
    c: CheckV,
    item: ItemV,
    range: TextRange,
    operator: BinaryOperator,
    lhs: crate::hir::ExprId,
    rhs: crate::hir::ExprId,
    left: TyV,
    right: TyV,
)
    requires
        operands::is_arithmetic(operator),
        operands::numeric_part(c.table.structural(left)) is Some,
        operands::numeric_part(c.table.structural(right)) is Some,
        item.operator_candidates(c.table, operator, left, right).len() == 0,
    ensures
        ({
            let outcome = c.operated(item, range, operator, lhs, rhs, left, right);
            let a = operands::element_atomic(c.table.structural(left))->0;
            let b = operands::element_atomic(c.table.structural(right))->0;
            let spelling = operands::spelling_of(operator);
            &&& outcome.0 == c
            &&& operands::element_atomic(outcome.1) == Some(
                if a == Atomic::Double || b == Atomic::Double || spelling == Some("/"@) || spelling
                    == Some("^"@) {
                    Atomic::Double
                } else {
                    Atomic::Integer
                },
            )
        }),
{
    let m = item.module;
    let ranges = (crate::checking::blame_range(m, lhs), crate::checking::blame_range(m, rhs));
    let always_double = operator == BinaryOperator::Divide || operator == BinaryOperator::Power;
    arithmetic_of_two_numbers(
        c,
        m,
        range,
        ranges,
        c.table.structural(left),
        c.table.structural(right),
        always_double,
    );
    reveal_strlit("+");
    reveal_strlit("-");
    reveal_strlit("*");
    reveal_strlit("/");
    reveal_strlit("^");
    reveal_strlit("%%");
    reveal_strlit("%/%");
    let spelling = operands::spelling_of(operator)->0;
    assert(spelling == "/"@ ==> spelling.len() == 1 && spelling[0] == '/');
    assert(spelling == "^"@ ==> spelling.len() == 1 && spelling[0] == '^');
}

/// Unary minus on a number gives what adding it to an integer gives, in the
/// operand's own shape.
pub proof fn negation_computes_like_adding_an_integer(
    c: CheckV,
    m: Module,
    range: TextRange,
    ranges: (TextRange, TextRange),
    ty: TyV,
)
    requires
        operands::numeric_part(ty) is Some,
    ensures
        c.negated(m, range, ty) == c.arithmetic(
            m,
            range,
            ranges,
            ty,
            TyV::Scalar(Atomic::Integer),
            false,
        ),
{
    let part = operands::numeric_part(ty)->0;
    let one = (OperandShape::Scalar, Atomic::Integer);
    arithmetic_of_two_numbers(c, m, range, ranges, ty, TyV::Scalar(Atomic::Integer), false);
    assert(operands::numeric_operand(c.table, ty) == NumericV::Concrete(seq![part]));
    assert(operands::numeric_operand(c.table, TyV::Scalar(Atomic::Integer)) == NumericV::Concrete(
        seq![one],
    ));
    one_result(part, one, false);
    reveal_with_fuel(arithmetic::part_types, 2);
    assert(arithmetic::part_types(seq![part], 1) =~= seq![
        operands::shaped_type(part.0, part.1),
    ]);
    unions::a_union_of_one_type_is_the_type(operands::shaped_type(part.0, part.1));
    unions::a_union_of_one_type_is_the_type(operands::numeric_result(part, one, false));
}

/// `!` on a number or a logical gives a logical of the operand's own shape, and
/// nothing is reported.
pub proof fn inversion_gives_a_logical(c: CheckV, m: Module, range: TextRange, ty: TyV)
    requires
        operands::numeric_part(ty) is Some,
    ensures
        c.inverted(m, range, ty).0 == c,
        operands::element_atomic(c.inverted(m, range, ty).1) == Some(Atomic::Logical),
        c.inverted(m, range, ty).1 is Scalar <==> ty is Scalar,
{
}

/// Two types compare exactly where both are numbers or both are texts; the
/// result is then a logical, a single one where both operands are single, in
/// either order alike. Where one is a number and the other a text, a mismatch is
/// reported.
pub proof fn comparison_of_two_values(
    c: CheckV,
    m: Module,
    ranges: (TextRange, TextRange),
    left: TyV,
    right: TyV,
)
    requires
        operands::compared_part(left) is Some,
        operands::compared_part(right) is Some,
    ensures
        ({
            let outcome = c.compared(m, ranges, left, right);
            let numbers = |ty: TyV| operands::numeric_part(ty) is Some;
            &&& numbers(left) == numbers(right) ==> {
                &&& outcome.0 == c
                &&& operands::element_atomic(outcome.1) == Some(Atomic::Logical)
                &&& outcome.1 is Scalar <==> left is Scalar && right is Scalar
                &&& outcome.1 == c.compared(m, ranges, right, left).1
            }
            &&& numbers(left) != numbers(right) ==> {
                &&& outcome.1 == TyV::Unknown
                &&& outcome.0.errors.len() == c.errors.len() + 1
                &&& outcome.0.errors.last().range == ranges.1
            }
        }),
{
    let a = operands::compared_part(left)->0;
    let b = operands::compared_part(right)->0;
    one_compared(left);
    one_compared(right);
    assert(operands::compared_flexible(left) is None);
    assert(operands::compared_flexible(right) is None);
    let pa = seq![a];
    let pb = seq![b];
    assert(pa[0] == a && pb[0] == b);
    assert(arithmetic::families_differ(pa, pb) <==> a.1 != b.1) by {
        if a.1 != b.1 {
            assert(pa[0].1 != pb[0].1);
        }
    }
    assert(arithmetic::families_differ(pb, pa) <==> a.1 != b.1) by {
        if a.1 != b.1 {
            assert(pb[0].1 != pa[0].1);
        }
    }
    assert(arithmetic::compared_shapes(Some(pa), None) =~= seq![a.0]);
    assert(arithmetic::compared_shapes(Some(pb), None) =~= seq![b.0]);
    one_logical(a.0, b.0);
    one_logical(b.0, a.0);
    unions::a_union_of_one_type_is_the_type(operands::shaped_type(operands::wider(a.0, b.0), Atomic::Logical));
}

proof fn one_compared(ty: TyV)
    requires
        operands::compared_part(ty) is Some,
    ensures
        operands::compared_list(ty) == Some(seq![operands::compared_part(ty)->0]),
        operands::numeric_part(ty) is Some <==> (operands::compared_part(ty)->0).1
            == ComparisonFamily::Numeric,
{
    reveal_with_fuel(operands::compared_parts, 2);
    assert(types::members_of(ty) == seq![ty]);
    assert(operands::compared_parts(seq![ty], 1)->0 =~= seq![operands::compared_part(ty)->0]);
}

proof fn one_logical(a: OperandShape, b: OperandShape)
    ensures
        arithmetic::logical_results(seq![a], seq![b], 1) == seq![
            operands::shaped_type(operands::wider(a, b), Atomic::Logical),
        ],
{
    let result = operands::shaped_type(operands::wider(a, b), Atomic::Logical);
    reveal_with_fuel(arithmetic::logical_results, 2);
    reveal_with_fuel(arithmetic::logical_row, 2);
    assert(arithmetic::logical_row(a, seq![b], 1) =~= seq![result]);
    assert(arithmetic::logical_results(seq![a], seq![b], 1) =~= seq![result]);
}

/// The two edges of a guard share a union out: every member is kept on at least
/// one of them, on both exactly where the guard cannot decide it.
pub proof fn the_edges_of_a_guard_share_the_members(members: Seq<TyV>, kind: GuardKind, i: int)
    requires
        0 <= i < members.len(),
    ensures
        ({
            let passed = operands::kept_members(members, kind, true, members.len());
            let failed = operands::kept_members(members, kind, false, members.len());
            &&& passed.contains(members[i]) || failed.contains(members[i])
            &&& operands::decided(kind, members[i]) is None <==> passed.contains(members[i])
                && failed.contains(members[i])
            &&& operands::decided(kind, members[i]) == Some(true) ==> !failed.contains(members[i])
            &&& operands::decided(kind, members[i]) == Some(false) ==> !passed.contains(members[i])
        }),
{
    kept_upto(members, kind, true, members.len());
    kept_upto(members, kind, false, members.len());
}

proof fn kept_upto(members: Seq<TyV>, kind: GuardKind, edge: bool, upto: nat)
    requires
        upto <= members.len(),
    ensures
        forall|i: int|
            #![trigger members[i]]
            0 <= i < upto && operands::decided(kind, members[i]) != Some(!edge)
                ==> operands::kept_members(members, kind, edge, upto).contains(members[i]),
        forall|ty: TyV|
            operands::kept_members(members, kind, edge, upto).contains(ty) ==> operands::decided(
                kind,
                ty,
            ) != Some(!edge),
    decreases upto,
{
    if upto > 0 {
        kept_upto(members, kind, edge, (upto - 1) as nat);
        let before = operands::kept_members(members, kind, edge, (upto - 1) as nat);
        let all = operands::kept_members(members, kind, edge, upto);
        assert forall|i: int|
            #![trigger members[i]]
            0 <= i < upto && operands::decided(kind, members[i]) != Some(!edge) implies all.contains(
            members[i],
        ) by {
            if i < upto - 1 {
                assert(before.contains(members[i]));
                let k = choose|k: int| 0 <= k < before.len() && before[k] == members[i];
                assert(all[k] == members[i]);
            } else {
                assert(all[before.len() as int] == members[i]);
            }
        }
        assert forall|ty: TyV| all.contains(ty) implies operands::decided(kind, ty) != Some(
            !edge,
        ) by {
            let k = choose|k: int| 0 <= k < all.len() && all[k] == ty;
            if k < before.len() {
                assert(before[k] == ty);
                assert(before.contains(ty));
            }
        }
    }
}

} // verus!
