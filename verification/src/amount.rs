//! 256-bit unsigned balance arithmetic for the pre-filter, held as two
//! 128-bit limbs. The pre-filter charges each transaction an upper bound
//! of `gas_limit * (priority_fee_or_price + base_fee_per_gas)` against
//! the sender's balance; the product does not fit machine integers, so
//! it is computed here limb by limb and proved exact.

use vstd::prelude::*;

verus! {

/// 2^64 as a u128 limb base.
pub const LIMB: u128 = 0x1_0000_0000_0000_0000;

/// A 256-bit unsigned integer: `hi * 2^128 + lo`.
#[derive(Clone, Copy, Debug, PartialEq, Eq, Structural)]
pub struct Amount {
    pub hi: u128,
    pub lo: u128,
}

/// The mathematical value of an `Amount`.
pub open spec fn amount_value(a: Amount) -> int {
    a.hi * 0x1_0000_0000_0000_0000_0000_0000_0000_0000 + a.lo
}

/// The limb order on `Amount` agrees with the order of the values.
pub proof fn lemma_amount_order(a: Amount, b: Amount)
    ensures
        (amount_value(a) < amount_value(b)) <==> (a.hi < b.hi || (a.hi == b.hi && a.lo < b.lo)),
{
    let b128: int = 0x1_0000_0000_0000_0000_0000_0000_0000_0000int;
    let ahi: int = a.hi as int;
    let bhi: int = b.hi as int;
    if ahi < bhi {
        assert(ahi * b128 + b128 <= bhi * b128) by (nonlinear_arith)
            requires
                ahi < bhi,
                b128 > 0,
        ;
    }
    if bhi < ahi {
        assert(bhi * b128 + b128 <= ahi * b128) by (nonlinear_arith)
            requires
                bhi < ahi,
                b128 > 0,
        ;
    }
}

impl Amount {
    pub fn from_u128(x: u128) -> (r: Amount)
        ensures
            amount_value(r) == x,
    {
        Amount { hi: 0, lo: x }
    }
}

/// `gas_limit * (price + base_fee)` as a 256-bit value, exactly.
pub fn fee_total(gas_limit: u64, price: u128, base_fee: u128) -> (r: Amount)
    ensures
        amount_value(r) == gas_limit * (price + base_fee),
{
    let g: u128 = gas_limit as u128;
    // price + base_fee == carry * 2^128 + sum_lo
    let (sum_lo, carry): (u128, u128) = if price <= u128::MAX - base_fee {
        (price + base_fee, 0)
    } else {
        ((price - (u128::MAX - base_fee)) - 1, 1)
    };
    assert(carry * 0x1_0000_0000_0000_0000_0000_0000_0000_0000 + sum_lo == price + base_fee);
    let l0: u128 = sum_lo % LIMB;
    let l1: u128 = sum_lo / LIMB;
    assert(g < LIMB && l0 < LIMB && l1 < LIMB && carry <= 1);
    assert(g * l0 <= (LIMB - 1) * (LIMB - 1) && g * l1 <= (LIMB - 1) * (LIMB - 1) && g * carry
        <= g) by (nonlinear_arith)
        requires
            g < LIMB,
            l0 < LIMB,
            l1 < LIMB,
            carry <= 1,
            LIMB == 0x1_0000_0000_0000_0000,
    ;
    let p0: u128 = g * l0;
    let p1: u128 = g * l1;
    let p2: u128 = g * carry;
    let t0: u128 = p0 % LIMB;
    let c0: u128 = p0 / LIMB;
    assert(c0 < LIMB && t0 < LIMB);
    let t1: u128 = p1 + c0;
    assert(t1 / LIMB < LIMB && t1 % LIMB < LIMB);
    let t2: u128 = p2 + t1 / LIMB;
    assert((t1 % LIMB) * LIMB <= (LIMB - 1) * LIMB) by (nonlinear_arith)
        requires
            t1 % LIMB < LIMB,
            LIMB == 0x1_0000_0000_0000_0000,
    ;
    let r_lo: u128 = t0 + (t1 % LIMB) * LIMB;
    let r = Amount { hi: t2, lo: r_lo };
    proof {
        let b64: int = LIMB as int;
        let b128: int = 0x1_0000_0000_0000_0000_0000_0000_0000_0000int;
        let gi: int = g as int;
        let p0i: int = p0 as int;
        let p1i: int = p1 as int;
        let p2i: int = p2 as int;
        let t0i: int = t0 as int;
        let c0i: int = c0 as int;
        let t1i: int = t1 as int;
        let t2i: int = t2 as int;
        let sum: int = price + base_fee;
        assert(b64 * b64 == b128);
        // sum decomposition into 64-bit limbs
        assert(sum_lo == l1 * b64 + l0);
        assert(carry * b128 + sum_lo == sum);
        // distribute g over the limbs of (price + base_fee)
        assert(gi * sum == p2i * b128 + p1i * b64 + p0i) by (nonlinear_arith)
            requires
                p0i == gi * l0,
                p1i == gi * l1,
                p2i == gi * carry,
                carry * b128 + sum_lo == sum,
                sum_lo == l1 * b64 + l0,
                b64 * b64 == b128,
        ;
        // carry propagation
        assert(p0i == c0i * b64 + t0i);
        assert(t1i == (t1i / b64) * b64 + t1i % b64);
        assert(p2i * b128 + p1i * b64 + p0i == t2i * b128 + (t1i % b64) * b64 + t0i)
            by (nonlinear_arith)
            requires
                p0i == c0i * b64 + t0i,
                t1i == p1i + c0i,
                t1i == (t1i / b64) * b64 + t1i % b64,
                t2i == p2i + t1i / b64,
                b64 * b64 == b128,
        ;
        assert(t1 % LIMB == t1i % b64 && t1 / LIMB == t1i / b64);
        assert(amount_value(r) == t2i * b128 + (t1i % b64) * b64 + t0i);
        assert(gas_limit * sum == gi * sum);
    }
    r
}

/// Strict comparison of two balances.
pub fn amount_lt(a: &Amount, b: &Amount) -> (r: bool)
    ensures
        r == (amount_value(*a) < amount_value(*b)),
{
    proof {
        lemma_amount_order(*a, *b);
    }
    if a.hi != b.hi {
        a.hi < b.hi
    } else {
        a.lo < b.lo
    }
}

/// Balance subtraction; the pre-filter only subtracts a fee it has just
/// checked against the balance.
pub fn amount_sub(a: &Amount, b: &Amount) -> (r: Amount)
    requires
        amount_value(*b) <= amount_value(*a),
    ensures
        amount_value(r) == amount_value(*a) - amount_value(*b),
{
    proof {
        lemma_amount_order(*a, *b);
    }
    if a.lo >= b.lo {
        Amount { hi: a.hi - b.hi, lo: a.lo - b.lo }
    } else {
        Amount { hi: a.hi - b.hi - 1, lo: (u128::MAX - b.lo) + a.lo + 1 }
    }
}

} // verus!
