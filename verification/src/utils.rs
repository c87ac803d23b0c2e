//! Shared pieces of the exchange: the fee denominator, swap-volume
//! bookkeeping, and small helpers used across the pool engine.
use vstd::prelude::*;
use vstd::arithmetic::power2::{pow2, lemma2_to64, lemma2_to64_rest, lemma_pow2_unfold};

use crate::errors::ExchangeError;
use crate::table::{balance_of, Table};

verus! {

/// Fee denominator, allowing fees to be quoted in basis points.
pub const FEE_DIVISOR: u32 = 10_000;

/// Volume of swaps through one side of a pool, cumulative and only ever
/// growing.
#[derive(Clone, Copy, Debug, PartialEq, Eq, Structural)]
pub struct SwapVolume {
    pub input: u128,
    pub output: u128,
}

impl Default for SwapVolume {
    /// Starts both counters at zero.
    fn default() -> (r: Self)
        ensures
            r.input == 0,
            r.output == 0,
    {
        SwapVolume { input: 0, output: 0 }
    }
}

/// The integer square root: the largest `r` with `r * r <= value`.
pub fn integer_sqrt(value: u128) -> (r: u128)
    ensures
        r * r <= value,
        (r + 1) * (r + 1) > value,
{
    let mut res: u128 = 0;
    let mut bit: u128 = 0x8000000000000000;
    let ghost mut k: nat = 63;
    proof {
        lemma2_to64();
        lemma2_to64_rest();
        assert((0int + 2 * 0x8000000000000000) * (0int + 2 * 0x8000000000000000) > value)
            by (nonlinear_arith)
            requires
                value <= u128::MAX,
        ;
    }
    while bit > 0
        invariant
            res * res <= value,
            bit > 0 ==> bit == pow2(k) && k <= 63,
            bit > 0 ==> ((res + 2 * bit) * (res + 2 * bit) > value && res + 2 * bit
                <= 0x10000000000000000),
            bit == 0 ==> ((res + 1) * (res + 1) > value && res < 0x10000000000000000),
        decreases bit,
    {
        let t = res + bit;
        proof {
            assert(t * t <= 0xffffffffffffffff * 0xffffffffffffffff) by (nonlinear_arith)
                requires
                    0 <= t <= 0xffffffffffffffff,
            ;
        }
        let sq = t * t;
        let taken = sq <= value;
        if taken {
            res = t;
        }
        let newbit = bit / 2;
        proof {
            lemma2_to64();
            if k > 0 {
                lemma_pow2_unfold(k);
                assert(2 * newbit == bit);
                k = (k - 1) as nat;
            } else {
                assert(bit == 1);
                assert(newbit == 0);
            }
        }
        bit = newbit;
    }
    res
}

/// Adds `value` to the balance stored under `key`, creating the entry when
/// absent.
pub fn add_to_collection(c: &mut Table<u128>, key: &String, value: u128)
    requires
        old(c).wf(),
        balance_of(old(c)@, key@) + value <= u128::MAX,
    ensures
        final(c).wf(),
        final(c)@ == old(c)@.insert(key@, (balance_of(old(c)@, key@) + value) as u128),
        final(c).sum() == old(c).sum() + value,
{
    c.credit(key, value);
}

/// Refuses a token list in which any identifier appears twice.
pub fn check_token_duplicates(tokens: &Vec<String>) -> (r: Result<(), ExchangeError>)
    ensures
        r is Ok <==> (forall|i: int, j: int|
            0 <= i < j < tokens@.len() ==> tokens@[i]@ != tokens@[j]@),
        r is Err ==> r->Err_0 == ExchangeError::DuplicateTokens,
{
    let n = tokens.len();
    let mut i: usize = 0;
    while i < n
        invariant
            n == tokens@.len(),
            i <= n,
            forall|a: int, b: int| 0 <= a < b < tokens@.len() && a < i ==> tokens@[a]@ != tokens@[b]@,
        decreases n - i,
    {
        let mut j: usize = i + 1;
        while j < n
            invariant
                n == tokens@.len(),
                i < n,
                i < j <= n,
                forall|b: int| i < b < j ==> tokens@[i as int]@ != tokens@[b]@,
            decreases n - j,
        {
            if tokens[i] == tokens[j] {
                return Err(ExchangeError::DuplicateTokens);
            }
            j = j + 1;
        }
        i = i + 1;
    }
    Ok(())
}

} // verus!
