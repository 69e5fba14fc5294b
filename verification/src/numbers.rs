//! Numeric literals: the double-precision number that a decimal text denotes.

use vstd::prelude::*;

use crate::hir::{ExpressionKind, LiteralKind};
use crate::naturals::{raised, raised_adds, raised_is_positive, Natural};
use crate::text::chars_of;

verus! {

pub open spec fn is_digit(c: char) -> bool {
    '0' <= c && c <= '9'
}

pub open spec fn digit(c: char) -> nat {
    (c as nat - '0' as nat) as nat
}

/// The first place from `from` on that holds no digit.
pub open spec fn digits_end(text: Seq<char>, from: int) -> int
    decreases text.len() - from,
{
    if 0 <= from < text.len() && is_digit(text[from]) {
        digits_end(text, from + 1)
    } else {
        from
    }
}

/// The number a run of digits spells.
pub open spec fn spelled(digits: Seq<char>) -> nat
    decreases digits.len(),
{
    if digits.len() == 0 {
        0
    } else {
        spelled(digits.drop_last()) * 10 + digit(digits.last())
    }
}

/// A decimal number: its digits, of which the first `point` stand before the
/// decimal point. A point past the digits stands for zeros, one before them for
/// zeros after the point.
pub struct DecimalV {
    pub negative: bool,
    pub digits: Seq<char>,
    pub point: int,
}

pub open spec fn is_sign(text: Seq<char>, at: int) -> bool {
    0 <= at < text.len() && (text[at] == '+' || text[at] == '-')
}

/// The number an exponent's text spells, where it is one.
pub open spec fn exponent(text: Seq<char>, from: int) -> Option<int> {
    let start = if is_sign(text, from) {
        from + 1
    } else {
        from
    };
    let end = digits_end(text, start);
    if end == start || end != text.len() {
        None
    } else if is_sign(text, from) && text[from] == '-' {
        Some(-(spelled(text.subrange(start, end)) as int))
    } else {
        Some(spelled(text.subrange(start, end)) as int)
    }
}

/// The decimal number a text spells: a sign, digits with at most one point among
/// them, and an exponent; sign, point and exponent may be absent, but not every
/// digit.
pub open spec fn decimal(text: Seq<char>) -> Option<DecimalV> {
    let start = if is_sign(text, 0) {
        1
    } else {
        0int
    };
    let negative = is_sign(text, 0) && text[0] == '-';
    let whole_end = digits_end(text, start);
    let has_point = whole_end < text.len() && text[whole_end] == '.';
    let end = if has_point {
        digits_end(text, whole_end + 1)
    } else {
        whole_end
    };
    let digits = text.subrange(start, whole_end) + (if has_point {
        text.subrange(whole_end + 1, end)
    } else {
        Seq::empty()
    });
    if digits.len() == 0 {
        None
    } else if end == text.len() {
        Some(DecimalV { negative, digits, point: whole_end - start })
    } else if text[end] == 'e' || text[end] == 'E' {
        match exponent(text, end + 1) {
            Some(power) => Some(DecimalV { negative, digits, point: whole_end - start + power }),
            None => None,
        }
    } else {
        None
    }
}

impl DecimalV {
    /// The numerator of the magnitude.
    pub open spec fn numerator(self) -> nat {
        if self.point >= self.digits.len() {
            spelled(self.digits) * raised(10, (self.point - self.digits.len()) as nat)
        } else {
            spelled(self.digits)
        }
    }

    /// The denominator of the magnitude.
    pub open spec fn denominator(self) -> nat {
        if self.point >= self.digits.len() {
            1
        } else {
            raised(10, (self.digits.len() - self.point) as nat)
        }
    }

    /// The double-precision number nearest to the magnitude.
    pub open spec fn nearest(self) -> DoubleV {
        nearest_double(self.numerator(), self.denominator())
    }
}

/// The magnitude of a double-precision number: a significand times a power of
/// two.
pub struct DoubleV {
    pub significand: nat,
    pub exponent: int,
}

/// The least double-precision number is two to the power of minus this.
pub const LEAST: usize = 1074;

/// The bits of a significand.
pub const BITS: usize = 53;

/// How many exponents a double-precision number can have.
pub const EXPONENTS: usize = 2046;

/// A quotient rounded to the nearest whole number, to the even one of two.
pub open spec fn half_even(a: nat, b: nat) -> nat {
    let quotient = a / b;
    let rest = a % b;
    if 2 * rest > b || 2 * rest == b && quotient % 2 == 1 {
        quotient + 1
    } else {
        quotient
    }
}

/// The least exponent under which a fraction has no more than the bits of a
/// significand, counted from the least exponent there is; from one on.
pub open spec fn exponent_of(numerator: nat, denominator: nat, from: nat) -> nat
    decreases EXPONENTS - from,
{
    if from >= EXPONENTS || numerator * raised(2, LEAST as nat) < denominator * raised(
        2,
        BITS as nat + from,
    ) {
        from
    } else {
        exponent_of(numerator, denominator, from + 1)
    }
}

/// The double-precision number nearest to a fraction.
pub open spec fn nearest_double(numerator: nat, denominator: nat) -> DoubleV {
    let exponent = exponent_of(numerator, denominator, 0);
    DoubleV {
        significand: half_even(
            numerator * raised(2, LEAST as nat),
            denominator * raised(2, exponent),
        ),
        exponent: exponent - LEAST,
    }
}

impl DoubleV {
    /// Whether the number does not overflow to infinity.
    pub open spec fn is_finite(self) -> bool {
        let last = EXPONENTS - 1 - LEAST;
        self.exponent < last || self.exponent == last && self.significand < raised(
            2,
            BITS as nat,
        )
    }

    /// Whether the number has no fractional part.
    pub open spec fn is_whole(self) -> bool {
        self.exponent >= 0 || self.significand % raised(2, (-self.exponent) as nat) == 0
    }

    /// The number without its fractional part.
    pub open spec fn integer(self) -> nat {
        if self.exponent >= 0 {
            self.significand * raised(2, self.exponent as nat)
        } else {
            self.significand / raised(2, (-self.exponent) as nat)
        }
    }
}

/// Whether a text spells a number whose nearest double is finite and whole.
pub open spec fn is_whole_double(text: Seq<char>) -> bool {
    match decimal(text) {
        Some(number) => number.nearest().is_finite() && number.nearest().is_whole(),
        None => false,
    }
}

/// A decimal number read from a text.
struct Decimal {
    negative: bool,
    digits: Vec<char>,
    /// How many digits stand before the point as written.
    written: usize,
    /// The magnitude of the exponent, cut off where it dwarfs every text.
    power: u128,
    power_negative: bool,
}

/// Past this an exponent moves the point out of any text.
pub const POWER_CAP: u128 = 0x1_0000_0000_0000_0000_0000u128;

impl Decimal {
    spec fn stands_for(&self, number: DecimalV) -> bool {
        &&& self.negative == number.negative
        &&& self.digits@ == number.digits
        &&& self.written <= self.digits@.len()
        &&& exists|power: int| #[trigger]
            self.has_power(power) && number.point == self.written + power
    }

    spec fn has_power(&self, power: int) -> bool {
        &&& self.power_negative ==> power <= 0
        &&& !self.power_negative ==> power >= 0
        &&& ({
            let magnitude = if power < 0 {
                -power
            } else {
                power
            };
            if self.power < POWER_CAP {
                magnitude == self.power
            } else {
                magnitude >= POWER_CAP
            }
        })
    }
}

fn skip_digits(text: &Vec<char>, from: usize) -> (r: usize)
    requires
        from <= text@.len(),
    ensures
        r == digits_end(text@, from as int),
        from <= r <= text@.len(),
        forall|i: int| from <= i < r ==> is_digit(#[trigger] text@[i]),
{
    let mut i: usize = from;
    while i < text.len() && text[i] >= '0' && text[i] <= '9'
        invariant
            from <= i <= text@.len(),
            digits_end(text@, i as int) == digits_end(text@, from as int),
            forall|k: int| from <= k < i ==> is_digit(#[trigger] text@[k]),
        decreases text.len() - i,
    {
        i += 1;
    }
    i
}

/// A digit's value.
fn digit_value(c: char) -> (r: u8)
    requires
        is_digit(c),
    ensures
        r == digit(c),
        r <= 9,
{
    if c == '0' {
        0
    } else if c == '1' {
        1
    } else if c == '2' {
        2
    } else if c == '3' {
        3
    } else if c == '4' {
        4
    } else if c == '5' {
        5
    } else if c == '6' {
        6
    } else if c == '7' {
        7
    } else if c == '8' {
        8
    } else {
        9
    }
}

/// The number a run of digits spells, cut off at the cap.
fn capped(text: &Vec<char>, from: usize, to: usize) -> (r: u128)
    requires
        from <= to <= text@.len(),
        forall|i: int| from <= i < to ==> is_digit(#[trigger] text@[i]),
    ensures
        ({
            let value = spelled(text@.subrange(from as int, to as int));
            if r < POWER_CAP {
                r == value
            } else {
                value >= POWER_CAP
            }
        }),
{
    let mut value: u128 = 0;
    let mut i: usize = from;
    assert(text@.subrange(from as int, from as int) =~= Seq::empty());
    while i < to
        invariant
            from <= i <= to <= text@.len(),
            forall|k: int| from <= k < to ==> is_digit(#[trigger] text@[k]),
            value <= POWER_CAP,
            ({
                let so_far = spelled(text@.subrange(from as int, i as int));
                if value < POWER_CAP {
                    value == so_far
                } else {
                    so_far >= POWER_CAP
                }
            }),
        decreases to - i,
    {
        assert(text@.subrange(from as int, i + 1).drop_last() =~= text@.subrange(
            from as int,
            i as int,
        ));
        assert(text@.subrange(from as int, i + 1).last() == text@[i as int]);
        let next: u128 = digit_value(text[i]) as u128;
        if value < POWER_CAP {
            let grown: u128 = value * 10 + next;
            value = if grown < POWER_CAP {
                grown
            } else {
                POWER_CAP
            };
        }
        i += 1;
    }
    value
}

#[verifier::rlimit(40)]
fn read_decimal(text: &Vec<char>) -> (r: Option<Decimal>)
    ensures
        match r {
            Some(number) => decimal(text@) is Some && number.stands_for(decimal(text@)->0),
            None => decimal(text@) is None,
        },
        r matches Some(number) ==> forall|i: int|
            0 <= i < number.digits@.len() ==> is_digit(#[trigger] number.digits@[i]),
{
    let signed = text.len() > 0 && (text[0] == '+' || text[0] == '-');
    let negative = signed && text[0] == '-';
    let start: usize = if signed {
        1
    } else {
        0
    };
    let whole_end: usize = skip_digits(text, start);
    let has_point = whole_end < text.len() && text[whole_end] == '.';
    let end: usize = if has_point {
        skip_digits(text, whole_end + 1)
    } else {
        whole_end
    };
    let mut digits: Vec<char> = Vec::new();
    let mut i: usize = start;
    while i < whole_end
        invariant
            start <= i <= whole_end <= text@.len(),
            digits@ =~= text@.subrange(start as int, i as int),
            forall|k: int| start <= k < whole_end ==> is_digit(#[trigger] text@[k]),
            forall|k: int| 0 <= k < digits@.len() ==> is_digit(#[trigger] digits@[k]),
        decreases whole_end - i,
    {
        digits.push(text[i]);
        i += 1;
    }
    let written: usize = digits.len();
    if has_point {
        let ghost before = digits@;
        let mut j: usize = whole_end + 1;
        while j < end
            invariant
                whole_end + 1 <= j <= end <= text@.len(),
                digits@ =~= before + text@.subrange(whole_end + 1, j as int),
                forall|k: int| whole_end + 1 <= k < end ==> is_digit(#[trigger] text@[k]),
                forall|k: int| 0 <= k < digits@.len() ==> is_digit(#[trigger] digits@[k]),
            decreases end - j,
        {
            digits.push(text[j]);
            j += 1;
        }
    }
    assert(digits@ =~= text@.subrange(start as int, whole_end as int) + (if has_point {
        text@.subrange(whole_end + 1, end as int)
    } else {
        Seq::empty()
    }));
    if digits.len() == 0 {
        return None;
    }
    if end == text.len() {
        let number = Decimal { negative, digits, written, power: 0, power_negative: false };
        assert(number.has_power(0));
        return Some(number);
    }
    if text[end] != 'e' && text[end] != 'E' {
        return None;
    }
    let from: usize = end + 1;
    let power_signed = from < text.len() && (text[from] == '+' || text[from] == '-');
    let power_negative = power_signed && text[from] == '-';
    let power_start: usize = if power_signed {
        from + 1
    } else {
        from
    };
    let power_end: usize = skip_digits(text, power_start);
    if power_end == power_start || power_end != text.len() {
        return None;
    }
    let power: u128 = capped(text, power_start, power_end);
    let number = Decimal { negative, digits, written, power, power_negative };
    assert(number.has_power(exponent(text@, end + 1)->0));
    Some(number)
}

/// Where an exponent leaves every double-precision number behind.
pub const FAR: usize = 400;

/// A finite double-precision number.
struct Double {
    significand: u64,
    /// The exponent, counted from the least there is.
    exponent: usize,
}

impl Double {
    spec fn view(&self) -> DoubleV {
        DoubleV { significand: self.significand as nat, exponent: self.exponent - LEAST }
    }

    spec fn wf(&self) -> bool {
        &&& self.significand <= 0x20_0000_0000_0000
        &&& self.exponent < EXPONENTS
    }
}

proof fn digits_are_bounded(digits: Seq<char>)
    requires
        forall|i: int| 0 <= i < digits.len() ==> is_digit(#[trigger] digits[i]),
    ensures
        spelled(digits) < raised(10, digits.len()),
    decreases digits.len(),
{
    if digits.len() > 0 {
        digits_are_bounded(digits.drop_last());
    }
}

/// Ten is more than two cubed.
proof fn tens_exceed_eights(power: nat)
    ensures
        raised(10, power) >= raised(2, 3 * power),
    decreases power,
{
    if power > 0 {
        let below = (power - 1) as nat;
        tens_exceed_eights(below);
        assert(3 * power == 3 * below + 3);
        raised_adds(2, 3 * below, 3);
        assert(raised(2, 3) == 8) by {
            reveal_with_fuel(raised, 4);
        }
        let p = raised(2, 3 * below);
        assert(p * raised(2, 3) == 8 * p) by (nonlinear_arith)
            requires
                raised(2, 3) == 8,
        ;
    }
}

proof fn powers_grow(base: nat, a: nat, b: nat)
    requires
        base > 0,
        a <= b,
    ensures
        raised(base, a) <= raised(base, b),
{
    raised_adds(base, a, (b - a) as nat);
    raised_is_positive(base, (b - a) as nat);
    let p = raised(base, a);
    let q = raised(base, (b - a) as nat);
    assert(p <= p * q) by (nonlinear_arith)
        requires
            q >= 1,
            p >= 0,
    ;
}

/// A fraction past every exponent has none.
proof fn far_fractions_overflow(numerator: nat, denominator: nat, from: nat)
    requires
        from <= EXPONENTS,
        denominator == 1,
        numerator >= raised(10, FAR as nat),
    ensures
        exponent_of(numerator, denominator, from) == EXPONENTS,
    decreases EXPONENTS - from,
{
    if from < EXPONENTS {
        let scale = raised(2, LEAST as nat);
        tens_exceed_eights(FAR as nat);
        raised_adds(2, 3 * FAR as nat, LEAST as nat);
        powers_grow(2, BITS as nat + from, 3 * FAR as nat + LEAST as nat);
        let eights = raised(2, 3 * FAR as nat);
        assert(numerator * scale >= eights * scale) by (nonlinear_arith)
            requires
                numerator >= eights,
                scale >= 0,
        ;
        far_fractions_overflow(numerator, denominator, from + 1);
    }
}

/// A fraction far below the least number rounds to zero.
proof fn near_fractions_vanish(numerator: nat, denominator: nat)
    requires
        denominator > 0,
        numerator * raised(10, FAR as nat) <= denominator,
    ensures
        nearest_double(numerator, denominator) == (DoubleV {
            significand: 0,
            exponent: -(LEAST as int),
        }),
{
    let scale = raised(2, LEAST as nat);
    let tens = raised(10, FAR as nat);
    tens_exceed_eights(FAR as nat);
    powers_grow(2, LEAST as nat + 2, 3 * FAR as nat);
    raised_adds(2, LEAST as nat, 2);
    assert(raised(2, 2) == 4) by {
        reveal_with_fuel(raised, 3);
    }
    assert(scale * raised(2, 2) == 4 * scale) by (nonlinear_arith)
        requires
            raised(2, 2) == 4,
    ;
    assert(4 * (numerator * scale) <= denominator) by (nonlinear_arith)
        requires
            4 * scale <= tens,
            numerator * tens <= denominator,
    ;
    let a = numerator * scale;
    powers_grow(2, 0, BITS as nat);
    let reach = raised(2, BITS as nat);
    assert(a < denominator * reach) by (nonlinear_arith)
        requires
            4 * a <= denominator,
            denominator > 0,
            reach >= 1,
    ;
    assert(BITS as nat + 0 == BITS as nat);
    assert(raised(2, 0) == 1);
    assert(denominator * raised(2, 0) == denominator) by (nonlinear_arith)
        requires
            raised(2, 0) == 1,
    ;
    assert(exponent_of(numerator, denominator, 0) == 0);
    assert(a / denominator == 0 && a % denominator == a) by (nonlinear_arith)
        requires
            4 * a <= denominator,
            denominator > 0,
    ;
}

/// A quotient and its rest, from the same of the scaled fraction.
proof fn quotient_is_exact(a: nat, b: nat, scale: nat, quotient: nat, rest: nat)
    requires
        b > 0,
        scale > 0,
        a * scale == quotient * (b * scale) + rest,
        rest < b * scale,
    ensures
        quotient == a / b,
        rest == (a % b) * scale,
{
    let left = a - quotient * b;
    assert(rest == left * scale) by (nonlinear_arith)
        requires
            a * scale == quotient * (b * scale) + rest,
            left == a - quotient * b,
    ;
    assert(0 <= left < b) by (nonlinear_arith)
        requires
            rest == left * scale,
            0 <= rest < b * scale,
            scale > 0,
    ;
    vstd::arithmetic::div_mod::lemma_fundamental_div_mod_converse(
        a as int,
        b as int,
        quotient as int,
        left,
    );
}

/// The bits of a significand and what is left of the fraction.
fn divided(scaled: &Natural, reach: &Natural) -> (r: (u64, Natural))
    requires
        scaled@ < reach@,
    ensures
        r.0 < 0x20_0000_0000_0000,
        scaled@ * raised(2, BITS as nat) == r.0 * reach@ + r.1@,
        r.1@ < reach@,
{
    let mut quotient: u64 = 0;
    let mut rest = scaled.times_plus(1, 0);
    let mut i: usize = 0;
    proof {
        assert(scaled@ * raised(2, 0) == 0 * reach@ + scaled@) by (nonlinear_arith)
            requires
                raised(2, 0) == 1,
        ;
    }
    while i < BITS
        invariant
            i <= BITS,
            BITS == 53,
            rest@ < reach@,
            quotient < raised(2, i as nat),
            raised(2, i as nat) <= 0x20_0000_0000_0000,
            scaled@ * raised(2, i as nat) == quotient * reach@ + rest@,
        decreases BITS - i,
    {
        let ghost p = raised(2, i as nat);
        let ghost before = (quotient as nat, rest@);
        proof {
            powers_grow(2, (i + 1) as nat, BITS as nat);
            significands_fit();
            assert(scaled@ * (2 * p) == 2 * (before.0 * reach@ + before.1)) by (nonlinear_arith)
                requires
                    scaled@ * p == before.0 * reach@ + before.1,
            ;
            assert((2 * before.0) * reach@ == 2 * (before.0 * reach@)) by (nonlinear_arith);
            assert((2 * before.0 + 1) * reach@ == 2 * (before.0 * reach@) + reach@)
                by (nonlinear_arith);
        }
        rest = rest.times_plus(2, 0);
        quotient = quotient * 2;
        if !rest.is_less(reach) {
            rest = rest.minus(reach);
            quotient = quotient + 1;
        }
        i += 1;
    }
    proof {
        significands_fit();
    }
    (quotient, rest)
}

proof fn significands_fit()
    ensures
        raised(2, BITS as nat) == 0x20_0000_0000_0000,
{
    assert(raised(2, 13) == 8192 && raised(2, 14) == 16384) by {
        reveal_with_fuel(raised, 15);
    }
    let (a, b) = (raised(2, 13), raised(2, 14));
    raised_adds(2, 13, 13);
    raised_adds(2, 13, 14);
    raised_adds(2, 26, 27);
    assert(a * a == 0x400_0000 && a * b == 0x800_0000) by (nonlinear_arith)
        requires
            a == 8192,
            b == 16384,
    ;
    let (c, d) = (raised(2, 26), raised(2, 27));
    assert(c * d == 0x20_0000_0000_0000) by (nonlinear_arith)
        requires
            c == 0x400_0000,
            d == 0x800_0000,
    ;
}

/// The finite double nearest to a fraction; `None` where it overflows.
fn round(numerator: &Natural, denominator: &Natural) -> (r: Option<Double>)
    requires
        denominator@ > 0,
    ensures
        match r {
            Some(number) => number@ == nearest_double(numerator@, denominator@) && number.wf()
                && number@.is_finite(),
            None => !nearest_double(numerator@, denominator@).is_finite(),
        },
{
    let scaled = numerator.doubled(LEAST);
    let mut reach = denominator.doubled(BITS);
    let mut exponent: usize = 0;
    while exponent < EXPONENTS && !scaled.is_less(&reach)
        invariant
            exponent <= EXPONENTS,
            scaled@ == numerator@ * raised(2, LEAST as nat),
            reach@ == denominator@ * raised(2, BITS as nat + exponent as nat),
            exponent_of(numerator@, denominator@, 0) == exponent_of(
                numerator@,
                denominator@,
                exponent as nat,
            ),
        decreases EXPONENTS - exponent,
    {
        reach = reach.times_plus(2, 0);
        proof {
            let p = raised(2, BITS as nat + exponent as nat);
            assert(BITS as nat + (exponent + 1) as nat == (BITS as nat + exponent as nat) + 1);
            assert(denominator@ * p * 2 == denominator@ * (2 * p)) by (nonlinear_arith);
        }
        exponent += 1;
    }
    if exponent == EXPONENTS {
        return None;
    }
    let (quotient, rest) = divided(&scaled, &reach);
    let ghost unit = denominator@ * raised(2, exponent as nat);
    proof {
        let scale = raised(2, BITS as nat);
        let p = raised(2, exponent as nat);
        raised_adds(2, BITS as nat, exponent as nat);
        raised_is_positive(2, exponent as nat);
        raised_is_positive(2, BITS as nat);
        assert(reach@ == unit * scale) by (nonlinear_arith)
            requires
                reach@ == denominator@ * (scale * p),
                unit == denominator@ * p,
        ;
        assert(unit > 0) by (nonlinear_arith)
            requires
                unit == denominator@ * p,
                denominator@ > 0,
                p > 0,
        ;
        quotient_is_exact(scaled@, unit, scale, quotient as nat, rest@);
        let left = scaled@ % unit;
        assert((2 * rest@ > reach@) == (2 * left > unit)) by (nonlinear_arith)
            requires
                rest@ == left * scale,
                reach@ == unit * scale,
                scale > 0,
        ;
        assert((2 * rest@ == reach@) == (2 * left == unit)) by (nonlinear_arith)
            requires
                rest@ == left * scale,
                reach@ == unit * scale,
                scale > 0,
        ;
        significands_fit();
    }
    let twice = rest.times_plus(2, 0);
    let up = reach.is_less(&twice) || (!twice.is_less(&reach) && quotient % 2 == 1);
    let significand: u64 = if up {
        quotient + 1
    } else {
        quotient
    };
    let number = Double { significand, exponent };
    assert(number@ == nearest_double(numerator@, denominator@));
    if exponent == EXPONENTS - 1 && significand >= 0x20_0000_0000_0000 {
        return None;
    }
    Some(number)
}

impl Double {
    fn is_whole(&self) -> (r: bool)
        requires
            self.wf(),
        ensures
            r == self@.is_whole(),
    {
        if self.exponent >= LEAST {
            return true;
        }
        self.significand % self.unit() == 0
    }

    /// One in terms of the significand's last bit, as far as it goes.
    fn unit(&self) -> (r: u64)
        requires
            self.wf(),
            self.exponent < LEAST,
        ensures
            r > 0,
            self.significand % r == self.significand as nat % raised(
                2,
                (LEAST - self.exponent) as nat,
            ),
            self.significand / r == self.significand as nat / raised(
                2,
                (LEAST - self.exponent) as nat,
            ),
    {
        let count: usize = LEAST - self.exponent;
        let mut unit: u64 = 1;
        let mut i: usize = 0;
        while i < count && i < 60
            invariant
                i <= count,
                i <= 60,
                unit == raised(2, i as nat),
                i < 60 ==> unit <= 0x800_0000_0000_0000,
                i == 60 ==> unit == 0x1000_0000_0000_0000,
            decreases count - i,
        {
            proof {
                powers_grow(2, i as nat, 59);
                sixty_bits();
            }
            unit = unit * 2;
            i += 1;
            proof {
                if i < 60 {
                    powers_grow(2, i as nat, 59);
                    sixty_bits();
                } else {
                    sixty_bits();
                }
            }
        }
        proof {
            raised_is_positive(2, i as nat);
            if i < count {
                let whole = raised(2, count as nat);
                sixty_bits();
                powers_grow(2, 60, count as nat);
                vstd::arithmetic::div_mod::lemma_small_mod(self.significand as nat, whole);
                vstd::arithmetic::div_mod::lemma_small_mod(self.significand as nat, unit as nat);
                vstd::arithmetic::div_mod::lemma_basic_div(self.significand as int, whole as int);
                vstd::arithmetic::div_mod::lemma_basic_div(self.significand as int, unit as int);
            }
        }
        unit
    }

    /// The number without its fractional part, cut off at the largest position.
    fn integer(&self) -> (r: usize)
        requires
            self.wf(),
        ensures
            r == (if self@.integer() <= usize::MAX {
                self@.integer()
            } else {
                usize::MAX as nat
            }),
    {
        let most: u128 = usize::MAX as u128;
        if self.exponent < LEAST {
            let value: u128 = (self.significand / self.unit()) as u128;
            return if value <= most {
                value as usize
            } else {
                usize::MAX
            };
        }
        let count: usize = self.exponent - LEAST;
        let ghost full = self@.integer();
        let mut value: u128 = self.significand as u128;
        let mut i: usize = 0;
        assert(self.significand * raised(2, 0) == self.significand) by (nonlinear_arith)
            requires
                raised(2, 0) == 1,
        ;
        while i < count && value <= most
            invariant
                i <= count,
                most == usize::MAX,
                full == self.significand * raised(2, count as nat),
                value == self.significand * raised(2, i as nat),
                value <= 0x2_0000_0000_0000_0000u128,
            decreases count - i,
        {
            proof {
                let p = raised(2, i as nat);
                assert(self.significand * p * 2 == self.significand * (2 * p))
                    by (nonlinear_arith);
            }
            value = value * 2;
            i += 1;
        }
        proof {
            powers_grow(2, i as nat, count as nat);
            assert(self.significand * raised(2, i as nat) <= self.significand * raised(
                2,
                count as nat,
            )) by (nonlinear_arith)
                requires
                    raised(2, i as nat) <= raised(2, count as nat),
                    self.significand >= 0,
            ;
        }
        if value <= most {
            value as usize
        } else {
            usize::MAX
        }
    }
}

proof fn sixty_bits()
    ensures
        raised(2, 59) == 0x800_0000_0000_0000,
        raised(2, 60) == 0x1000_0000_0000_0000,
{
    significands_fit();
    raised_adds(2, 53, 6);
    raised_adds(2, 53, 7);
    assert(raised(2, 6) == 64 && raised(2, 7) == 128) by {
        reveal_with_fuel(raised, 8);
    }
}

/// The number that digits spell.
fn natural_of(digits: &Vec<char>) -> (r: Natural)
    requires
        forall|i: int| 0 <= i < digits@.len() ==> is_digit(#[trigger] digits@[i]),
    ensures
        r@ == spelled(digits@),
{
    let mut value = Natural::small(0);
    let mut i: usize = 0;
    while i < digits.len()
        invariant
            i <= digits@.len(),
            forall|i: int| 0 <= i < digits@.len() ==> is_digit(#[trigger] digits@[i]),
            value@ == spelled(digits@.subrange(0, i as int)),
        decreases digits.len() - i,
    {
        let next: u32 = digit_value(digits[i]) as u32;
        value = value.times_plus(10, next);
        assert(digits@.subrange(0, i + 1).drop_last() =~= digits@.subrange(0, i as int));
        i += 1;
    }
    assert(digits@.subrange(0, i as int) =~= digits@);
    value
}

/// Zeros spell nothing, wherever their point stands.
proof fn no_digits_vanish(number: DecimalV)
    requires
        spelled(number.digits) == 0,
    ensures
        number.nearest() == (DoubleV { significand: 0, exponent: -(LEAST as int) }),
{
    let power = if number.point >= number.digits.len() {
        number.point - number.digits.len()
    } else {
        number.digits.len() - number.point
    };
    let p = raised(10, power as nat);
    raised_is_positive(10, power as nat);
    let numerator = number.numerator();
    assert(0 * p == 0) by (nonlinear_arith);
    assert(numerator == 0);
    let tens = raised(10, FAR as nat);
    assert(numerator * tens == 0) by (nonlinear_arith)
        requires
            numerator == 0,
    ;
    near_fractions_vanish(numerator, number.denominator());
}

/// A number times a power of ten.
fn times_tens(number: &Natural, power: u128) -> (r: Natural)
    ensures
        r@ == number@ * raised(10, power as nat),
{
    let mut out = number.times_plus(1, 0);
    let mut i: u128 = 0;
    assert(number@ * raised(10, 0) == number@) by (nonlinear_arith)
        requires
            raised(10, 0) == 1,
    ;
    while i < power
        invariant
            i <= power,
            out@ == number@ * raised(10, i as nat),
        decreases power - i,
    {
        out = out.times_plus(10, 0);
        proof {
            let p = raised(10, i as nat);
            assert(number@ * p * 10 == number@ * (10 * p)) by (nonlinear_arith);
        }
        i += 1;
    }
    out
}

impl Decimal {
    /// The finite double nearest to the magnitude; `None` where it overflows.
    fn nearest(&self, Ghost(number): Ghost<DecimalV>) -> (r: Option<Double>)
        requires
            self.stands_for(number),
            forall|i: int| 0 <= i < self.digits@.len() ==> is_digit(#[trigger] self.digits@[i]),
        ensures
            match r {
                Some(double) => double@ == number.nearest() && double.wf() && double@.is_finite(),
                None => !number.nearest().is_finite(),
            },
    {
        let value = natural_of(&self.digits);
        let count: i128 = self.digits.len() as i128;
        let ghost tens = raised(10, FAR as nat);
        proof {
            raised_is_positive(10, FAR as nat);
        }
        if !Natural::small(0).is_less(&value) {
            proof {
                no_digits_vanish(number);
            }
            return Some(Double { significand: 0, exponent: 0 });
        }
        let moved: i128 = if self.power >= POWER_CAP {
            POWER_CAP as i128
        } else {
            self.power as i128
        };
        let point: i128 = if self.power_negative {
            self.written as i128 - moved
        } else {
            self.written as i128 + moved
        };
        if point - count >= FAR as i128 {
            proof {
                let power = (number.point - number.digits.len()) as nat;
                powers_grow(10, FAR as nat, power);
                let own = spelled(number.digits);
                assert(own * raised(10, power) >= tens) by (nonlinear_arith)
                    requires
                        own >= 1,
                        raised(10, power) >= tens,
                ;
                far_fractions_overflow(number.numerator(), number.denominator(), 0);
            }
            return None;
        }
        if point + FAR as i128 <= 0 {
            proof {
                let power = (number.digits.len() - number.point) as nat;
                let width = number.digits.len();
                let rest = (power - width) as nat;
                digits_are_bounded(number.digits);
                raised_adds(10, width, rest);
                powers_grow(10, FAR as nat, rest);
                let own = spelled(number.digits);
                let whole = raised(10, width);
                assert(own * tens <= whole * raised(10, rest)) by (nonlinear_arith)
                    requires
                        own <= whole,
                        tens <= raised(10, rest),
                ;
                raised_is_positive(10, power);
                near_fractions_vanish(number.numerator(), number.denominator());
            }
            return Some(Double { significand: 0, exponent: 0 });
        }
        assert(number.point == point);
        if point >= count {
            let power: u128 = (point - count) as u128;
            round(&times_tens(&value, power), &Natural::small(1))
        } else {
            let power: u128 = (count - point) as u128;
            let denominator = times_tens(&Natural::small(1), power);
            proof {
                raised_is_positive(10, power as nat);
            }
            round(&value, &denominator)
        }
    }
}

/// Whether a text spells a number whose nearest double is finite and whole, such
/// as `1` or `2.0`. Such a literal may fill an integer parameter.
pub fn is_whole_number_double(text: &str) -> (r: bool)
    ensures
        r == is_whole_double(text@),
{
    let chars = chars_of(text);
    match read_decimal(&chars) {
        Some(number) => {
            let ghost model = decimal(text@)->0;
            match number.nearest(Ghost(model)) {
                Some(double) => double.is_whole(),
                None => false,
            }
        },
        None => false,
    }
}

/// Where the run of trailing `L` marks starts among the first `upto` characters.
pub open spec fn unmarked(text: Seq<char>, upto: int) -> int
    decreases upto,
{
    if 0 < upto <= text.len() && text[upto - 1] == 'L' {
        unmarked(text, upto - 1)
    } else {
        upto
    }
}

/// The number an unsigned integer text spells, where it is one that a position
/// can hold: digits, after at most one `+`.
pub open spec fn unsigned(text: Seq<char>) -> Option<nat> {
    let start = if text.len() > 0 && text[0] == '+' {
        1
    } else {
        0int
    };
    if start == text.len() || digits_end(text, start) != text.len() {
        None
    } else {
        let value = spelled(text.subrange(start, text.len() as int));
        if value <= usize::MAX {
            Some(value)
        } else {
            None
        }
    }
}

/// The position counted from one that a double literal names: the number it
/// rounds to, where that is whole and at least one, cut off at the largest
/// position.
pub open spec fn double_position(text: Seq<char>) -> Option<nat> {
    match decimal(text) {
        Some(number) => {
            let value = number.nearest().integer();
            if is_whole_double(text) && !number.negative && value >= 1 {
                Some(
                    if value <= usize::MAX {
                        value
                    } else {
                        usize::MAX as nat
                    },
                )
            } else {
                None
            }
        },
        None => None,
    }
}

/// The position counted from one that a literal names.
pub open spec fn one_based(kind: ExpressionKind) -> Option<nat> {
    match kind {
        ExpressionKind::Literal(LiteralKind::Integer(text)) => unsigned(
            text@.subrange(0, unmarked(text@, text@.len() as int)),
        ),
        ExpressionKind::Literal(LiteralKind::Double(text)) => double_position(text@),
        _ => None,
    }
}

/// The position counted from zero that an index literal names: `2` and `2L`
/// index alike.
pub open spec fn literal_position(kind: ExpressionKind) -> Option<nat> {
    match one_based(kind) {
        Some(position) => if position >= 1 {
            Some((position - 1) as nat)
        } else {
            None
        },
        None => None,
    }
}

fn read_unsigned(text: &Vec<char>, upto: usize) -> (r: Option<usize>)
    requires
        upto <= text@.len(),
    ensures
        (match r {
            Some(value) => Some(value as nat),
            None => None,
        }) == unsigned(text@.subrange(0, upto as int)),
{
    let ghost own = text@.subrange(0, upto as int);
    let start: usize = if upto > 0 && text[0] == '+' {
        1
    } else {
        0
    };
    if start == upto {
        return None;
    }
    let mut value: usize = 0;
    let mut over = false;
    let mut i: usize = start;
    assert(own.subrange(start as int, start as int) =~= Seq::empty());
    while i < upto
        invariant
            start <= i <= upto <= text@.len(),
            own == text@.subrange(0, upto as int),
            digits_end(own, start as int) == digits_end(own, i as int),
            ({
                let so_far = spelled(own.subrange(start as int, i as int));
                if over {
                    so_far > usize::MAX
                } else {
                    so_far == value
                }
            }),
            start == (if own.len() > 0 && own[0] == '+' {
                1int
            } else {
                0int
            }),
            start < own.len(),
        decreases upto - i,
    {
        assert(own[i as int] == text@[i as int]);
        if text[i] < '0' || text[i] > '9' {
            assert(digits_end(own, i as int) == i);
            return None;
        }
        assert(own.subrange(start as int, i + 1).drop_last() =~= own.subrange(
            start as int,
            i as int,
        ));
        assert(own.subrange(start as int, i + 1).last() == own[i as int]);
        let next: usize = digit_value(text[i]) as usize;
        if !over {
            if value > usize::MAX / 10 || value * 10 > usize::MAX - next {
                over = true;
            } else {
                value = value * 10 + next;
            }
        }
        i += 1;
    }
    assert(digits_end(own, upto as int) == upto);
    if over {
        None
    } else {
        Some(value)
    }
}

/// The position counted from zero that an index literal names.
pub fn integer_literal_position(kind: &ExpressionKind) -> (r: Option<usize>)
    ensures
        (match r {
            Some(position) => Some(position as nat),
            None => None,
        }) == literal_position(*kind),
{
    let one_based: Option<usize> = match kind {
        ExpressionKind::Literal(LiteralKind::Integer(text)) => {
            let chars = chars_of(text.as_str());
            let mut end: usize = chars.len();
            while end > 0 && chars[end - 1] == 'L'
                invariant
                    end <= chars@.len(),
                    unmarked(chars@, chars@.len() as int) == unmarked(chars@, end as int),
                decreases end,
            {
                end -= 1;
            }
            read_unsigned(&chars, end)
        },
        ExpressionKind::Literal(LiteralKind::Double(text)) => read_double_position(text.as_str()),
        _ => None,
    };
    match one_based {
        Some(position) => {
            if position >= 1 {
                Some(position - 1)
            } else {
                None
            }
        },
        None => None,
    }
}

fn read_double_position(text: &str) -> (r: Option<usize>)
    ensures
        (match r {
            Some(value) => Some(value as nat),
            None => None,
        }) == double_position(text@),
{
    let chars = chars_of(text);
    match read_decimal(&chars) {
        Some(number) => {
            let ghost model = decimal(text@)->0;
            match number.nearest(Ghost(model)) {
                Some(double) => {
                    let value: usize = double.integer();
                    if double.is_whole() && !number.negative && value >= 1 {
                        Some(value)
                    } else {
                        None
                    }
                },
                None => None,
            }
        },
        None => None,
    }
}

} // verus!
