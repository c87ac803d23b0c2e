//! Fixed-width 256-bit unsigned arithmetic.
//!
//! Every ratio computation in the pool engine multiplies two 128-bit amounts
//! before dividing, so the intermediate product needs 256 bits. A value is
//! kept as two 128-bit halves and interpreted as `hi * 2^128 + lo`; all
//! operations carry exact contracts over that interpretation.
use vstd::prelude::*;
use vstd::arithmetic::power2::{pow2, lemma2_to64, lemma2_to64_rest, lemma_pow2_adds, lemma_pow2_pos};
use vstd::arithmetic::div_mod::{
    lemma_basic_div, lemma_div_basics, lemma_div_denominator, lemma_div_nonincreasing,
    lemma_fundamental_div_mod, lemma_fundamental_div_mod_converse,
};

verus! {

/// A 256-bit unsigned integer: `hi * 2^128 + lo`.
#[derive(Clone, Copy, Debug, PartialEq, Eq, Structural)]
pub struct U256 {
    pub hi: u128,
    pub lo: u128,
}

/// The mathematical value of a 256-bit pair.
pub open spec fn u256_val(w: U256) -> int {
    (w.hi as int) * 0x100000000000000000000000000000000 + (w.lo as int)
}

impl U256 {
    /// Widens a 128-bit value.
    pub fn from_u128(x: u128) -> (r: U256)
        ensures
            u256_val(r) == x,
    {
        U256 { hi: 0, lo: x }
    }

    /// The zero value.
    pub fn zero() -> (r: U256)
        ensures
            u256_val(r) == 0,
    {
        U256 { hi: 0, lo: 0 }
    }

    /// Narrows back to 128 bits; the value must fit.
    pub fn as_u128(self) -> (r: u128)
        requires
            u256_val(self) < 0x100000000000000000000000000000000,
        ensures
            r == u256_val(self),
    {
        self.lo
    }

    /// Comparison: `self <= other` on the 256-bit values.
    pub fn le(self, other: U256) -> (r: bool)
        ensures
            r == (u256_val(self) <= u256_val(other)),
    {
        self.hi < other.hi || (self.hi == other.hi && self.lo <= other.lo)
    }

    /// Comparison: `self >= other` on the 256-bit values.
    pub fn ge(self, other: U256) -> (r: bool)
        ensures
            r == (u256_val(self) >= u256_val(other)),
    {
        other.le(self)
    }

    /// Addition; the exact sum must fit in 256 bits.
    pub fn add_wide(self, other: U256) -> (r: U256)
        requires
            u256_val(self) + u256_val(other)
                < 0x10000000000000000000000000000000000000000000000000000000000000000,
        ensures
            u256_val(r) == u256_val(self) + u256_val(other),
    {
        match self.lo.checked_add(other.lo) {
            Some(lo) => U256 { hi: self.hi + other.hi, lo },
            None => {
                let lo = self.lo.wrapping_add(other.lo);
                U256 { hi: self.hi + other.hi + 1, lo }
            },
        }
    }

    /// Subtraction; the subtrahend must not exceed the value.
    pub fn sub_wide(self, other: U256) -> (r: U256)
        requires
            u256_val(other) <= u256_val(self),
        ensures
            u256_val(r) == u256_val(self) - u256_val(other),
    {
        if self.lo >= other.lo {
            U256 { hi: self.hi - other.hi, lo: self.lo - other.lo }
        } else {
            let lo = (u128::MAX - other.lo) + 1 + self.lo;
            U256 { hi: (self.hi - 1) - other.hi, lo }
        }
    }
}

impl U256 {
    /// Halves the value, rounding down.
    pub fn shr1(self) -> (r: U256)
        ensures
            u256_val(r) == u256_val(self) / 2,
            u256_val(self) % 2 == self.lo % 2,
    {
        let hi = self.hi / 2;
        let lo = (self.hi % 2) * 0x80000000000000000000000000000000 + self.lo / 2;
        let r = U256 { hi, lo };
        proof {
            assert(u256_val(self) == 2 * u256_val(r) + (self.lo % 2));
            lemma_fundamental_div_mod_converse(
                u256_val(self),
                2,
                u256_val(r),
                (self.lo % 2) as int,
            );
        }
        r
    }

    /// Doubles the value and brings `bit` in at the bottom; the bit shifted
    /// out at the top is reported separately, so nothing is lost.
    pub fn shl1_with(self, bit: u8) -> (res: (U256, bool))
        requires
            bit <= 1,
        ensures
            2 * u256_val(self) + bit == (if res.1 {
                0x10000000000000000000000000000000000000000000000000000000000000000int
            } else {
                0int
            }) + u256_val(res.0),
    {
        let carry = self.hi >= 0x80000000000000000000000000000000;
        let hi = (self.hi % 0x80000000000000000000000000000000) * 2
            + self.lo / 0x80000000000000000000000000000000;
        let lo = (self.lo % 0x80000000000000000000000000000000) * 2 + bit as u128;
        (U256 { hi, lo }, carry)
    }
}

/// Records the powers of two that the 256-bit proofs mention.
proof fn pow2_facts()
    ensures
        pow2(0) == 1,
        pow2(1) == 2,
        pow2(64) == 0x10000000000000000,
        pow2(127) == 0x80000000000000000000000000000000,
        pow2(128) == 0x100000000000000000000000000000000,
        pow2(256) == 0x10000000000000000000000000000000000000000000000000000000000000000,
{
    lemma2_to64();
    lemma2_to64_rest();
    lemma_pow2_adds(64, 63);
    lemma_pow2_adds(64, 64);
    lemma_pow2_adds(128, 128);
    assert(0x10000000000000000int * 0x8000000000000000
        == 0x80000000000000000000000000000000) by (nonlinear_arith);
    assert(0x10000000000000000int * 0x10000000000000000
        == 0x100000000000000000000000000000000) by (nonlinear_arith);
    assert(0x100000000000000000000000000000000int * 0x100000000000000000000000000000000
        == 0x10000000000000000000000000000000000000000000000000000000000000000)
        by (nonlinear_arith);
}

/// The four 64-bit limb products of `a * b` recombine to the exact
/// 256-bit product.
proof fn lemma_limb_product(a: u128, b: u128)
    by (nonlinear_arith)
    ensures
        a * b == ((a / 0x10000000000000000) * (b / 0x10000000000000000))
            * 0x100000000000000000000000000000000
            + ((a / 0x10000000000000000) * (b % 0x10000000000000000)
                + (a % 0x10000000000000000) * (b / 0x10000000000000000))
            * 0x10000000000000000
            + (a % 0x10000000000000000) * (b % 0x10000000000000000),
{
}

/// Bounds the product of two 64-bit limbs.
proof fn lemma_limb_bound(x: int, y: int)
    by (nonlinear_arith)
    requires
        0 <= x < 0x10000000000000000,
        0 <= y < 0x10000000000000000,
    ensures
        x * y <= 0xfffffffffffffffe0000000000000001,
{
}

/// Full multiplication of two 128-bit values into 256 bits; never overflows.
pub fn mul_u128(a: u128, b: u128) -> (r: U256)
    ensures
        u256_val(r) == a * b,
{
    let a1: u128 = a / 0x10000000000000000;
    let a0: u128 = a % 0x10000000000000000;
    let b1: u128 = b / 0x10000000000000000;
    let b0: u128 = b % 0x10000000000000000;
    proof {
        lemma_limb_bound(a0 as int, b0 as int);
        lemma_limb_bound(a0 as int, b1 as int);
        lemma_limb_bound(a1 as int, b0 as int);
        lemma_limb_bound(a1 as int, b1 as int);
    }
    let p00: u128 = a0 * b0;
    let p01: u128 = a0 * b1;
    let p10: u128 = a1 * b0;
    let p11: u128 = a1 * b1;
    let mid: u128 = p10 + p00 / 0x10000000000000000;
    let mid2: u128 = p01 + mid % 0x10000000000000000;
    let lo: u128 = (mid2 % 0x10000000000000000) * 0x10000000000000000 + p00 % 0x10000000000000000;
    let hi: u128 = p11 + mid / 0x10000000000000000 + mid2 / 0x10000000000000000;
    proof {
        lemma_limb_product(a, b);
    }
    U256 { hi, lo }
}

/// Peeling one binary digit off a prefix of the dividend: the prefix down to
/// bit `e` is twice the prefix down to bit `e + 1` plus that bit.
proof fn lemma_prefix_step(n: int, e: nat)
    requires
        0 <= n,
    ensures
        n / pow2(e) as int == 2 * (n / pow2(e + 1) as int) + (n / pow2(e) as int) % 2,
{
    lemma_pow2_pos(e);
    lemma2_to64();
    lemma_div_denominator(n, pow2(e) as int, 2);
    lemma_pow2_adds(e, 1);
    assert(pow2(e) as int * 2 == pow2(e + 1));
    lemma_fundamental_div_mod(n / pow2(e) as int, 2);
}

/// Floor division of 256-bit values by shift-and-subtract long division.
pub fn div_wide(n: U256, d: U256) -> (q: U256)
    requires
        u256_val(d) > 0,
    ensures
        u256_val(q) == u256_val(n) / u256_val(d),
{
    let ghost nval = u256_val(n);
    let ghost dval = u256_val(d);
    proof {
        pow2_facts();
    }
    // Extract the dividend's 256 bits, least significant first.
    let mut bits: Vec<u8> = Vec::new();
    let mut cur = n;
    proof {
        lemma_div_basics(nval);
    }
    while bits.len() < 256
        invariant
            bits@.len() <= 256,
            0 <= nval,
            u256_val(cur) == nval / pow2(bits@.len() as nat) as int,
            forall|t: int|
                0 <= t < bits@.len() ==> #[trigger] bits@[t] == (nval / pow2(t as nat) as int) % 2,
        decreases 256 - bits@.len(),
    {
        let ghost k = bits@.len() as nat;
        let bit: u8 = (cur.lo % 2) as u8;
        let next = cur.shr1();
        proof {
            lemma_prefix_step(nval, k);
        }
        bits.push(bit);
        cur = next;
    }
    // 2^256 - d, used to subtract d from a remainder whose top bit was
    // carried out of the 256-bit register.
    let comp = U256 { hi: u128::MAX, lo: u128::MAX }.sub_wide(d).add_wide(U256::from_u128(1));
    let mut q = U256::zero();
    let mut r = U256::zero();
    let mut j: usize = 256;
    proof {
        lemma_basic_div(nval, pow2(256) as int);
    }
    while j > 0
        invariant
            j <= 256,
            bits@.len() == 256,
            forall|t: int|
                0 <= t < 256 ==> #[trigger] bits@[t] == (nval / pow2(t as nat) as int) % 2,
            nval == u256_val(n),
            dval == u256_val(d),
            0 <= nval,
            0 < dval,
            u256_val(comp) == 0x10000000000000000000000000000000000000000000000000000000000000000
                - dval,
            0 <= u256_val(r) < dval,
            u256_val(q) * dval + u256_val(r) == nval / pow2(j as nat) as int,
        decreases j,
    {
        let ghost prefix = nval / pow2(j as nat) as int;
        let ghost prefix2 = nval / pow2((j - 1) as nat) as int;
        proof {
            lemma_prefix_step(nval, (j - 1) as nat);
            lemma_pow2_pos((j - 1) as nat);
            lemma_div_nonincreasing(nval, pow2((j - 1) as nat) as int);
        }
        let bit: u8 = bits[j - 1];
        let (r2, rcarry) = r.shl1_with(bit);
        // The full doubled remainder, including a possible 257th bit.
        let ghost rfull = 2 * u256_val(r) + bit;
        let big = rcarry || r2.ge(d);
        let rnew: U256;
        if big {
            proof {
                assert(rfull - dval < dval);
            }
            if rcarry {
                rnew = r2.add_wide(comp);
            } else {
                rnew = r2.sub_wide(d);
            }
        } else {
            rnew = r2;
        }
        let qbit: u8 = if big {
            1
        } else {
            0
        };
        let ghost qnext = 2 * u256_val(q) + qbit;
        proof {
            assert(qnext * dval + u256_val(rnew) == prefix2) by (nonlinear_arith)
                requires
                    qnext == 2 * u256_val(q) + qbit,
                    u256_val(q) * dval + u256_val(r) == prefix,
                    prefix2 == 2 * prefix + bit,
                    rfull == 2 * u256_val(r) + bit,
                    u256_val(rnew) == if qbit == 1 {
                        rfull - dval
                    } else {
                        rfull as int
                    },
                    qbit == 0 || qbit == 1,
            ;
            assert(qnext <= qnext * dval) by (nonlinear_arith)
                requires
                    0 <= qnext,
                    1 <= dval,
            ;
        }
        let (q2, qcarry) = q.shl1_with(qbit);
        proof {
            assert(!qcarry);
        }
        q = q2;
        r = rnew;
        j = j - 1;
    }
    proof {
        lemma_div_basics(nval);
        lemma_fundamental_div_mod_converse(nval, dval, u256_val(q), u256_val(r));
    }
    q
}

/// Multiplies a 256-bit value by a 128-bit value; the exact product must fit
/// in 256 bits.
pub fn mul_wide_u128(a: U256, b: u128) -> (r: U256)
    requires
        u256_val(a) * b
            < 0x10000000000000000000000000000000000000000000000000000000000000000,
    ensures
        u256_val(r) == u256_val(a) * b,
{
    let m = mul_u128(a.lo, b);
    proof {
        assert((a.hi as int) * b < 0x100000000000000000000000000000000
            && (m.hi as int) + (a.hi as int) * b < 0x100000000000000000000000000000000
            && ((m.hi as int) + (a.hi as int) * b) * 0x100000000000000000000000000000000
                + m.lo == ((a.hi as int) * 0x100000000000000000000000000000000 + a.lo) * b)
            by (nonlinear_arith)
            requires
                ((a.hi as int) * 0x100000000000000000000000000000000 + a.lo) * b
                    < 0x10000000000000000000000000000000000000000000000000000000000000000,
                (m.hi as int) * 0x100000000000000000000000000000000 + m.lo
                    == (a.lo as int) * b,
                0 <= a.hi < 0x100000000000000000000000000000000,
                0 <= a.lo < 0x100000000000000000000000000000000,
                0 <= m.hi < 0x100000000000000000000000000000000,
                0 <= m.lo < 0x100000000000000000000000000000000,
                0 <= b < 0x100000000000000000000000000000000,
        ;
    }
    let hp: u128 = a.hi * b;
    U256 { hi: m.hi + hp, lo: m.lo }
}

/// `floor(a * b / c)` with a 256-bit intermediate product; the quotient must
/// fit back into 128 bits.
pub fn mul_div_u128(a: u128, b: u128, c: u128) -> (r: u128)
    requires
        c > 0,
        (a as int) * b / (c as int) < 0x100000000000000000000000000000000,
    ensures
        r == (a as int) * b / (c as int),
{
    let p = mul_u128(a, b);
    let q = div_wide(p, U256::from_u128(c));
    q.as_u128()
}

} // verus!
