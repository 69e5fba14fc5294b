//! Which position a number names: the laws of index literals.

use vstd::prelude::*;

use crate::hir::{ExpressionKind, LiteralKind};
use crate::naturals::{raised, raised_adds, raised_is_positive};
use crate::numbers::{self, BITS, LEAST};

verus! {

/// Whether a text is a run of digits.
pub open spec fn is_digits(text: Seq<char>) -> bool {
    text.len() > 0 && forall|i: int| 0 <= i < text.len() ==> numbers::is_digit(#[trigger] text[i])
}

proof fn scaled_below(n: nat, power: nat)
    requires
        n < raised(2, BITS as nat),
    ensures
        n * raised(2, power) < raised(2, BITS as nat + power),
{
    raised_adds(2, BITS as nat, power);
    raised_is_positive(2, power);
    let p = raised(2, power);
    let bound = raised(2, BITS as nat);
    assert(n * p < bound * p) by (nonlinear_arith)
        requires
            n < bound,
            p > 0,
    ;
}

proof fn small_exponent(n: nat, from: nat)
    requires
        n < raised(2, BITS as nat),
        from <= LEAST,
    ensures
        numbers::exponent_of(n, 1, from) <= LEAST,
    decreases LEAST - from,
{
    if from < LEAST {
        small_exponent(n, from + 1);
    } else {
        scaled_below(n, LEAST as nat);
        let bound = raised(2, BITS as nat + from);
        assert(1 * bound == bound);
    }
}

/// A whole number of no more bits than a double holds is a double: it is finite,
/// whole, and the same number.
pub proof fn small_whole_numbers_are_doubles(n: nat)
    requires
        n < raised(2, BITS as nat),
    ensures
        numbers::nearest_double(n, 1).is_finite(),
        numbers::nearest_double(n, 1).is_whole(),
        numbers::nearest_double(n, 1).integer() == n,
{
    let e = numbers::exponent_of(n, 1, 0);
    small_exponent(n, 0);
    let rest = (LEAST - e) as nat;
    let scale = raised(2, e);
    let left = raised(2, rest);
    raised_adds(2, rest, e);
    raised_is_positive(2, e);
    raised_is_positive(2, rest);
    let whole = n * left;
    assert(n * raised(2, LEAST as nat) == whole * scale) by (nonlinear_arith)
        requires
            raised(2, LEAST as nat) == left * scale,
            whole == n * left,
    ;
    let a = n * raised(2, LEAST as nat);
    assert(1 * scale == scale);
    assert(a / scale == whole && a % scale == 0) by (nonlinear_arith)
        requires
            a == whole * scale,
            scale > 0,
    ;
    let double = numbers::nearest_double(n, 1);
    assert(double.significand == whole);
    assert(double.exponent == e - LEAST);
    assert(whole / left == n && whole % left == 0) by (nonlinear_arith)
        requires
            whole == n * left,
            left > 0,
    ;
    if rest == 0 {
        assert(raised(2, 0) == 1);
        assert(whole * 1 == whole);
        assert(n * 1 == n);
    }
}

proof fn digits_run_to_the_end(text: Seq<char>, from: int)
    requires
        0 <= from <= text.len(),
        forall|i: int| from <= i < text.len() ==> numbers::is_digit(#[trigger] text[i]),
    ensures
        numbers::digits_end(text, from) == text.len(),
    decreases text.len() - from,
{
    if from < text.len() {
        digits_run_to_the_end(text, from + 1);
    }
}

/// A run of digits is the decimal number it spells, without a fraction.
pub proof fn digits_spell_a_whole_number(text: Seq<char>)
    requires
        is_digits(text),
    ensures
        numbers::decimal(text) is Some,
        !(numbers::decimal(text)->0).negative,
        (numbers::decimal(text)->0).numerator() == numbers::spelled(text),
        (numbers::decimal(text)->0).denominator() == 1,
{
    assert(numbers::is_digit(text[0]));
    digits_run_to_the_end(text, 0);
    assert(text.subrange(0, text.len() as int) + Seq::<char>::empty() =~= text);
    let number = numbers::decimal(text)->0;
    assert(number.digits =~= text);
    assert(raised(10, 0) == 1);
    let n = numbers::spelled(text);
    assert(n * 1 == n);
}

/// `2` and `2L` index alike: a run of digits names the same position with the
/// mark of an integer and without it, the one it spells, counted from one.
pub proof fn whole_numbers_index_alike(double: ExpressionKind, integer: ExpressionKind)
    requires
        match (double, integer) {
            (
                ExpressionKind::Literal(LiteralKind::Double(a)),
                ExpressionKind::Literal(LiteralKind::Integer(b)),
            ) => is_digits(a@) && b@ == a@.push('L') && numbers::spelled(a@) <= usize::MAX
                && numbers::spelled(a@) < raised(2, BITS as nat),
            _ => false,
        },
    ensures
        numbers::literal_position(double) == numbers::literal_position(integer),
        match double {
            ExpressionKind::Literal(LiteralKind::Double(text)) => numbers::literal_position(double)
                == if numbers::spelled(text@) >= 1 {
                Some((numbers::spelled(text@) - 1) as nat)
            } else {
                None
            },
            _ => true,
        },
{
    match (double, integer) {
        (
            ExpressionKind::Literal(LiteralKind::Double(a)),
            ExpressionKind::Literal(LiteralKind::Integer(b)),
        ) => {
            let text = a@;
            let n = numbers::spelled(text);
            digits_spell_a_whole_number(text);
            small_whole_numbers_are_doubles(n);
            let marked = b@;
            assert(numbers::is_digit(text[text.len() - 1]));
            assert(marked[text.len() as int] == 'L');
            assert(marked[text.len() - 1] == text[text.len() - 1]);
            assert(numbers::unmarked(marked, text.len() as int) == text.len());
            assert(numbers::unmarked(marked, marked.len() as int) == text.len());
            assert(marked.subrange(0, text.len() as int) =~= text);
            assert(numbers::is_digit(text[0]));
            digits_run_to_the_end(text, 0);
            assert(text.subrange(0, text.len() as int) =~= text);
        },
        _ => {},
    }
}

/// An exponent moves the point as far as its digits say: to the right, or to the
/// left under a minus.
pub proof fn an_exponent_moves_the_point(digits: Seq<char>)
    requires
        is_digits(digits),
    ensures
        numbers::exponent(digits, 0) == Some(numbers::spelled(digits) as int),
        numbers::exponent(seq!['+'] + digits, 0) == Some(numbers::spelled(digits) as int),
        numbers::exponent(seq!['-'] + digits, 0) == Some(-(numbers::spelled(digits) as int)),
{
    assert(numbers::is_digit(digits[0]));
    digits_run_to_the_end(digits, 0);
    assert(digits.subrange(0, digits.len() as int) =~= digits);
    let plus = seq!['+'] + digits;
    let minus = seq!['-'] + digits;
    assert forall|i: int| 1 <= i < plus.len() implies numbers::is_digit(#[trigger] plus[i]) by {
        assert(plus[i] == digits[i - 1]);
    }
    assert forall|i: int| 1 <= i < minus.len() implies numbers::is_digit(#[trigger] minus[i]) by {
        assert(minus[i] == digits[i - 1]);
    }
    digits_run_to_the_end(plus, 1);
    digits_run_to_the_end(minus, 1);
    assert(plus.subrange(1, plus.len() as int) =~= digits);
    assert(minus.subrange(1, minus.len() as int) =~= digits);
}

/// A number names a position where it is whole and at least one, and the position
/// is one less.
pub proof fn a_position_is_counted_from_one(kind: ExpressionKind)
    ensures
        numbers::literal_position(kind) is Some <==> numbers::one_based(kind) is Some
            && numbers::one_based(kind)->0 >= 1,
        numbers::literal_position(kind) is Some ==> numbers::literal_position(kind)->0 + 1
            == numbers::one_based(kind)->0,
        match kind {
            ExpressionKind::Literal(LiteralKind::Double(text)) => numbers::decimal(text@) is Some
                && (numbers::decimal(text@)->0).negative ==> numbers::one_based(kind) is None,
            ExpressionKind::Literal(LiteralKind::Integer(_)) => true,
            _ => numbers::one_based(kind) is None,
        },
{
}

} // verus!
