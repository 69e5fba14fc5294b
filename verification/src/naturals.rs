//! Natural numbers of any size.

use vstd::prelude::*;

verus! {

/// A power.
pub open spec fn raised(base: nat, power: nat) -> nat
    decreases power,
{
    if power == 0 {
        1
    } else {
        base * raised(base, (power - 1) as nat)
    }
}

/// What a limb's place is worth, one place on.
pub const LIMB: u64 = 0x1_0000_0000u64;

/// A natural number by its limbs, the least first.
pub struct Natural {
    pub limbs: Vec<u32>,
}

/// The limb at a place.
pub open spec fn limb_at(limbs: Seq<u32>, i: int) -> nat {
    if 0 <= i < limbs.len() {
        limbs[i] as nat
    } else {
        0
    }
}

/// What the first limbs are worth.
pub open spec fn low(limbs: Seq<u32>, upto: nat) -> nat
    decreases upto,
{
    if upto == 0 {
        0
    } else {
        low(limbs, (upto - 1) as nat) + limb_at(limbs, upto - 1) * raised(
            LIMB as nat,
            (upto - 1) as nat,
        )
    }
}

impl Natural {
    pub open spec fn view(&self) -> nat {
        low(self.limbs@, self.limbs@.len())
    }
}

/// A power of a positive number is positive.
pub proof fn raised_is_positive(base: nat, power: nat)
    requires
        base > 0,
    ensures
        raised(base, power) > 0,
    decreases power,
{
    if power > 0 {
        raised_is_positive(base, (power - 1) as nat);
        assert(base * raised(base, (power - 1) as nat) > 0) by (nonlinear_arith)
            requires
                base > 0,
                raised(base, (power - 1) as nat) > 0,
        ;
    }
}

/// A power of a sum is the product of the powers.
pub proof fn raised_adds(base: nat, a: nat, b: nat)
    ensures
        raised(base, a + b) == raised(base, a) * raised(base, b),
    decreases a,
{
    if a > 0 {
        raised_adds(base, (a - 1) as nat, b);
        assert((a - 1) as nat + b == (a + b - 1) as nat);
        let p = raised(base, (a - 1) as nat);
        let q = raised(base, b);
        assert(raised(base, a) == base * p);
        assert(base * (p * q) == raised(base, a) * q) by (nonlinear_arith)
            requires
                raised(base, a) == base * p,
        ;
    } else {
        let one = raised(base, a);
        let q = raised(base, b);
        assert(one * q == q) by (nonlinear_arith)
            requires
                one == 1,
        ;
    }
}

proof fn low_is_bounded(limbs: Seq<u32>, upto: nat)
    ensures
        low(limbs, upto) < raised(LIMB as nat, upto),
    decreases upto,
{
    if upto > 0 {
        let i = (upto - 1) as nat;
        low_is_bounded(limbs, i);
        let p = raised(LIMB as nat, i);
        let x = limb_at(limbs, i as int);
        assert(x * p + p <= LIMB * p) by (nonlinear_arith)
            requires
                x + 1 <= LIMB,
                p >= 0,
        ;
    }
}

proof fn low_is_stable(limbs: Seq<u32>, upto: nat)
    requires
        upto >= limbs.len(),
    ensures
        low(limbs, upto) == low(limbs, limbs.len()),
    decreases upto,
{
    if upto > limbs.len() {
        low_is_stable(limbs, (upto - 1) as nat);
        let p = raised(LIMB as nat, (upto - 1) as nat);
        assert(0 * p == 0) by (nonlinear_arith);
    }
}

proof fn low_of_push(limbs: Seq<u32>, limb: u32, upto: nat)
    requires
        upto <= limbs.len(),
    ensures
        low(limbs.push(limb), upto) == low(limbs, upto),
    decreases upto,
{
    if upto > 0 {
        low_of_push(limbs, limb, (upto - 1) as nat);
    }
}

/// One step of a multiplication by one limb.
proof fn multiplied_limb(
    done: nat,
    carry: nat,
    own: nat,
    factor: nat,
    first: nat,
    limb: nat,
    place: nat,
    total: nat,
)
    requires
        done + carry * place == own * factor + first,
        total == limb * factor + carry,
    ensures
        done + (total % LIMB as nat) * place + (total / LIMB as nat) * (LIMB * place) == (own + limb
            * place) * factor + first,
{
    let rest = total % LIMB as nat;
    let over = total / LIMB as nat;
    assert(total == over * LIMB + rest) by (nonlinear_arith)
        requires
            rest == total % LIMB as nat,
            over == total / LIMB as nat,
    ;
    assert(rest * place + over * (LIMB * place) == total * place) by (nonlinear_arith)
        requires
            total == over * LIMB + rest,
    ;
    assert(total * place == limb * place * factor + carry * place) by (nonlinear_arith)
        requires
            total == limb * factor + carry,
    ;
    assert((own + limb * place) * factor == own * factor + limb * place * factor)
        by (nonlinear_arith);
}

impl Natural {
    /// A number of one limb.
    pub fn small(value: u32) -> (r: Natural)
        ensures
            r@ == value,
    {
        let mut limbs: Vec<u32> = Vec::new();
        limbs.push(value);
        assert(raised(LIMB as nat, 0) == 1);
        assert(low(limbs@, 0) == 0);
        assert(low(limbs@, 1) == value * 1);
        Natural { limbs }
    }

    /// The number times one limb, and another limb more.
    pub fn times_plus(&self, factor: u32, more: u32) -> (r: Natural)
        ensures
            r@ == self@ * factor + more,
    {
        let mut out: Vec<u32> = Vec::new();
        let mut carry: u64 = more as u64;
        let mut i: usize = 0;
        proof {
            assert(raised(LIMB as nat, 0) == 1);
            assert(low(self.limbs@, 0) * factor == 0) by (nonlinear_arith)
                requires
                    low(self.limbs@, 0) == 0,
            ;
        }
        while i < self.limbs.len()
            invariant
                i <= self.limbs@.len(),
                out@.len() == i,
                carry < LIMB,
                low(out@, i as nat) + carry * raised(LIMB as nat, i as nat) == low(
                    self.limbs@,
                    i as nat,
                ) * factor + more,
            decreases self.limbs.len() - i,
        {
            let limb: u64 = self.limbs[i] as u64;
            assert(limb * factor <= 0xffff_ffff * 0xffff_ffff) by (nonlinear_arith)
                requires
                    limb <= 0xffff_ffff,
                    factor <= 0xffff_ffff,
            ;
            let total: u64 = limb * factor as u64 + carry;
            let rest: u64 = total % LIMB;
            let ghost before = out@;
            out.push(rest as u32);
            proof {
                multiplied_limb(
                    low(before, i as nat),
                    carry as nat,
                    low(self.limbs@, i as nat),
                    factor as nat,
                    more as nat,
                    limb as nat,
                    raised(LIMB as nat, i as nat),
                    total as nat,
                );
                low_of_push(before, rest as u32, i as nat);
                assert(limb_at(out@, i as int) == rest);
                assert(limb_at(self.limbs@, i as int) == limb);
            }
            carry = total / LIMB;
            assert(carry < LIMB) by (nonlinear_arith)
                requires
                    carry == total / LIMB,
                    total <= 0xffff_ffff * 0xffff_ffff + 0xffff_ffff,
                    LIMB == 0x1_0000_0000u64,
            ;
            i += 1;
        }
        if carry != 0 {
            let ghost before = out@;
            out.push(carry as u32);
            proof {
                low_of_push(before, carry as u32, i as nat);
            }
        } else {
            assert(carry * raised(LIMB as nat, i as nat) == 0) by (nonlinear_arith)
                requires
                    carry == 0,
            ;
        }
        Natural { limbs: out }
    }

    /// The number doubled so many times.
    pub fn doubled(&self, times: usize) -> (r: Natural)
        ensures
            r@ == self@ * raised(2, times as nat),
    {
        let mut out = self.times_plus(1, 0);
        let mut i: usize = 0;
        while i < times
            invariant
                i <= times,
                out@ == self@ * raised(2, i as nat),
            decreases times - i,
        {
            out = out.times_plus(2, 0);
            proof {
                let p = raised(2, i as nat);
                assert(self@ * p * 2 == self@ * (2 * p)) by (nonlinear_arith);
            }
            i += 1;
        }
        out
    }

    fn limb(&self, i: usize) -> (r: u32)
        ensures
            r == limb_at(self.limbs@, i as int),
    {
        if i < self.limbs.len() {
            self.limbs[i]
        } else {
            0
        }
    }

    fn longest(&self, other: &Natural) -> (r: usize)
        ensures
            r >= self.limbs@.len(),
            r >= other.limbs@.len(),
    {
        if self.limbs.len() < other.limbs.len() {
            other.limbs.len()
        } else {
            self.limbs.len()
        }
    }

    /// Whether the number is less than another.
    pub fn is_less(&self, other: &Natural) -> (r: bool)
        ensures
            r == (self@ < other@),
    {
        let count: usize = self.longest(other);
        proof {
            low_is_stable(self.limbs@, count as nat);
            low_is_stable(other.limbs@, count as nat);
        }
        let mut i: usize = count;
        while i > 0
            invariant
                i <= count,
                self@ - other@ == low(self.limbs@, i as nat) - low(other.limbs@, i as nat),
            decreases i,
        {
            i -= 1;
            let own: u32 = self.limb(i);
            let others: u32 = other.limb(i);
            let ghost p = raised(LIMB as nat, i as nat);
            proof {
                low_is_bounded(self.limbs@, i as nat);
                low_is_bounded(other.limbs@, i as nat);
            }
            if own < others {
                assert(own * p + p <= others * p) by (nonlinear_arith)
                    requires
                        own + 1 <= others,
                        p >= 0,
                ;
                return true;
            }
            if own > others {
                assert(others * p + p <= own * p) by (nonlinear_arith)
                    requires
                        others + 1 <= own,
                        p >= 0,
                ;
                return false;
            }
        }
        false
    }

    /// The number less another.
    pub fn minus(&self, other: &Natural) -> (r: Natural)
        requires
            other@ <= self@,
        ensures
            r@ == self@ - other@,
    {
        let count: usize = self.longest(other);
        let mut out: Vec<u32> = Vec::new();
        let mut borrow: u64 = 0;
        let mut i: usize = 0;
        assert(raised(LIMB as nat, 0) == 1);
        while i < count
            invariant
                i <= count,
                out@.len() == i,
                borrow <= 1,
                low(out@, i as nat) + low(other.limbs@, i as nat) == low(self.limbs@, i as nat)
                    + borrow * raised(LIMB as nat, i as nat),
            decreases count - i,
        {
            let own: u64 = self.limb(i) as u64;
            let taken: u64 = other.limb(i) as u64 + borrow;
            let ghost p = raised(LIMB as nat, i as nat);
            let ghost before = out@;
            let ghost borrowed = borrow;
            let rest: u64 = if own >= taken {
                borrow = 0;
                own - taken
            } else {
                borrow = 1;
                own + LIMB - taken
            };
            out.push(rest as u32);
            proof {
                low_of_push(before, rest as u32, i as nat);
                assert(limb_at(out@, i as int) == rest);
                let theirs = taken - borrowed;
                assert(rest * p + theirs * p + borrowed * p == own * p + borrow * (LIMB * p))
                    by (nonlinear_arith)
                    requires
                        rest + theirs + borrowed == own + borrow * LIMB,
                ;
                assert(limb_at(self.limbs@, i as int) == own);
                assert(limb_at(other.limbs@, i as int) == theirs);
                assert(raised(LIMB as nat, (i + 1) as nat) == LIMB * p);
            }
            i += 1;
        }
        proof {
            low_is_stable(self.limbs@, count as nat);
            low_is_stable(other.limbs@, count as nat);
            low_is_bounded(out@, count as nat);
            let p = raised(LIMB as nat, count as nat);
            assert(borrow == 0) by (nonlinear_arith)
                requires
                    borrow <= 1,
                    low(out@, count as nat) < p,
                    low(out@, count as nat) + other@ == self@ + borrow * p,
                    other@ <= self@,
            ;
        }
        Natural { limbs: out }
    }
}

} // verus!
