//! The constant-product pool over exactly two tokens: liquidity shares,
//! swap quoting and execution, and volume accounting.
use vstd::prelude::*;

use crate::errors::ExchangeError;
use crate::table::{balance_of, Table};
use crate::utils::{SwapVolume, FEE_DIVISOR};
use crate::wide_math::{div_wide, mul_u128, mul_wide_u128, u256_val, U256};
use vstd::arithmetic::div_mod::{
    lemma_div_is_ordered, lemma_div_multiples_vanish, lemma_div_pos_is_pos,
    lemma_fundamental_div_mod, lemma_mod_pos_bound, lemma_multiply_divide_lt,
};

verus! {

/// `floor(a * b / c)`: every ratio in the pool engine rounds down, so the
/// pool never over-credits anyone.
pub open spec fn mul_div(a: int, b: int, c: int) -> int {
    a * b / c
}

/// The share supply a deposit is worth: the smaller of the two per-token
/// ratios `requested * total / reserve`.
pub open spec fn fair_supply(req0: int, req1: int, res0: int, res1: int, total: int) -> int {
    let q0 = mul_div(req0, total, res0);
    let q1 = mul_div(req1, total, res1);
    if q0 <= q1 {
        q0
    } else {
        q1
    }
}

/// What a swap returns: `amount_in` is first reduced by the fee, then
/// exchanged at the pool's marginal rate, rounding down.
pub open spec fn swap_return(amount_in: int, res_in: int, res_out: int, fee: int) -> int {
    let awf = amount_in * (FEE_DIVISOR - fee);
    awf * res_out / (FEE_DIVISOR * res_in + awf)
}

/// The constant-product law: a swap at the quoted return never decreases
/// the product of the two reserves, and strictly increases it whenever a
/// fee is charged.
pub proof fn lemma_swap_preserves_product(amount_in: int, res_in: int, res_out: int, fee: int)
    requires
        0 < amount_in,
        0 < res_in,
        0 < res_out,
        0 <= fee < FEE_DIVISOR,
    ensures
        ({
            let q = swap_return(amount_in, res_in, res_out, fee);
            &&& 0 <= q < res_out
            &&& (res_in + amount_in) * (res_out - q) >= res_in * res_out
            &&& fee > 0 ==> (res_in + amount_in) * (res_out - q) > res_in * res_out
        }),
{
    let f = FEE_DIVISOR as int;
    let awf = amount_in * (f - fee);
    let den = f * res_in + awf;
    let q = awf * res_out / den;
    assert(awf >= amount_in && awf * res_out >= 0 && den > awf) by (nonlinear_arith)
        requires
            0 < amount_in,
            0 < res_in,
            0 < res_out,
            0 <= fee < f,
            awf == amount_in * (f - fee),
            den == f * res_in + awf,
    ;
    lemma_div_pos_is_pos(awf * res_out, den);
    assert(awf * res_out < den * res_out) by (nonlinear_arith)
        requires
            den > awf,
            res_out > 0,
    ;
    lemma_multiply_divide_lt(awf * res_out, den, res_out);
    lemma_fundamental_div_mod(awf * res_out, den);
    lemma_mod_pos_bound(awf * res_out, den);
    assert(q * den <= awf * res_out) by (nonlinear_arith)
        requires
            awf * res_out == den * ((awf * res_out) / den) + (awf * res_out) % den,
            q == (awf * res_out) / den,
            (awf * res_out) % den >= 0,
    ;
    assert(q * (f * res_in) <= awf * (res_out - q)) by (nonlinear_arith)
        requires
            q * den <= awf * res_out,
            den == f * res_in + awf,
            q >= 0,
            awf >= 0,
    ;
    assert(awf <= f * amount_in) by (nonlinear_arith)
        requires
            awf == amount_in * (f - fee),
            fee >= 0,
            amount_in > 0,
    ;
    assert(awf * (res_out - q) <= (f * amount_in) * (res_out - q)) by (nonlinear_arith)
        requires
            awf <= f * amount_in,
            res_out - q >= 0,
    ;
    assert(q * res_in <= amount_in * (res_out - q)) by (nonlinear_arith)
        requires
            q * (f * res_in) <= (f * amount_in) * (res_out - q),
            f > 0,
    ;
    assert((res_in + amount_in) * (res_out - q) >= res_in * res_out) by (nonlinear_arith)
        requires
            q * res_in <= amount_in * (res_out - q),
            q < res_out,
            0 < res_in,
            0 < amount_in,
    ;
    if fee > 0 {
        assert(awf * (res_out - q) < (f * amount_in) * (res_out - q)) by (nonlinear_arith)
            requires
                awf == amount_in * (f - fee),
                fee > 0,
                amount_in > 0,
                res_out - q > 0,
                f > fee,
        ;
        assert(q * res_in < amount_in * (res_out - q)) by (nonlinear_arith)
            requires
                q * (f * res_in) <= awf * (res_out - q),
                awf * (res_out - q) < (f * amount_in) * (res_out - q),
                f > 0,
        ;
        assert((res_in + amount_in) * (res_out - q) > res_in * res_out) by (nonlinear_arith)
            requires
                q * res_in < amount_in * (res_out - q),
                q < res_out,
                0 < res_in,
                0 < amount_in,
        ;
    }
}

/// Machine-limit bounds under which a liquidity deposit cannot overflow:
/// grown reserves, the grown share supply and the provider's grown balance
/// all stay within 128 bits.
pub open spec fn add_liquidity_req(pre: SimplePool, sender: Seq<char>, amounts_pre: Seq<u128>) -> bool {
    &&& pre.shares_total_supply > 0 ==> pre.amounts@[0] > 0 && pre.amounts@[1] > 0
    &&& amounts_pre.len() == 2 ==> pre.amounts@[0] + amounts_pre[0] <= u128::MAX
        && pre.amounts@[1] + amounts_pre[1] <= u128::MAX
    &&& amounts_pre.len() == 2 && pre.shares_total_supply > 0 ==> ({
        let fair = fair_supply(
            amounts_pre[0] as int,
            amounts_pre[1] as int,
            pre.amounts@[0] as int,
            pre.amounts@[1] as int,
            pre.shares_total_supply as int,
        );
        &&& balance_of(pre.shares@, sender) + fair <= u128::MAX
        &&& pre.shares_total_supply + fair <= u128::MAX
    })
}

/// What a liquidity deposit does: the first deposit takes the amounts
/// verbatim and mints the fixed initial supply; later deposits mint the
/// fair supply and consume the matching ratio of each reserve, or are
/// refused whole when a requested or consumed amount is zero.
pub open spec fn add_liquidity_post(
    pre: SimplePool,
    post: SimplePool,
    sender: Seq<char>,
    amounts_pre: Seq<u128>,
    amounts_post: Seq<u128>,
    r: Result<u128, ExchangeError>,
) -> bool {
    &&& amounts_pre.len() != 2 ==> r == Err::<u128, ExchangeError>(ExchangeError::WrongTokenCount)
        && post == pre && amounts_post == amounts_pre
    &&& amounts_pre.len() == 2 && pre.shares_total_supply == 0 ==> r == Ok::<u128, ExchangeError>(
        INIT_SHARES_SUPPLY,
    ) && amounts_post == amounts_pre && post.amounts@ == seq![
        (pre.amounts@[0] + amounts_pre[0]) as u128,
        (pre.amounts@[1] + amounts_pre[1]) as u128,
    ] && post.shares@ == pre.shares@.insert(
        sender,
        (balance_of(pre.shares@, sender) + INIT_SHARES_SUPPLY) as u128,
    ) && post.shares_total_supply == INIT_SHARES_SUPPLY && post.token_account_ids@
        == pre.token_account_ids@ && post.volumes@ == pre.volumes@ && post.total_fee
        == pre.total_fee
    &&& amounts_pre.len() == 2 && pre.shares_total_supply > 0 ==> ({
        let total = pre.shares_total_supply as int;
        let res0 = pre.amounts@[0] as int;
        let res1 = pre.amounts@[1] as int;
        let fair = fair_supply(amounts_pre[0] as int, amounts_pre[1] as int, res0, res1, total);
        let a0 = mul_div(res0, fair, total);
        let a1 = mul_div(res1, fair, total);
        if amounts_pre[0] == 0 || amounts_pre[1] == 0 || a0 == 0 || a1 == 0 {
            r == Err::<u128, ExchangeError>(ExchangeError::ZeroAmount) && post == pre
                && amounts_post == amounts_pre
        } else {
            &&& 0 <= fair
            &&& 0 <= a0 <= amounts_pre[0]
            &&& 0 <= a1 <= amounts_pre[1]
            &&& r == Ok::<u128, ExchangeError>(fair as u128) && amounts_post == seq![
                a0 as u128,
                a1 as u128,
            ] && post.amounts@ == seq![(res0 + a0) as u128, (res1 + a1) as u128] && post.shares@
                == pre.shares@.insert(sender, (balance_of(pre.shares@, sender) + fair) as u128)
                && post.shares_total_supply == total + fair && post.token_account_ids@
                == pre.token_account_ids@ && post.volumes@ == pre.volumes@ && post.total_fee
                == pre.total_fee
        }
    })
}

/// Rules out the one division the share formula cannot take: burning zero
/// shares from a registered provider of a pool whose supply is zero.
pub open spec fn remove_liquidity_req(
    pre: SimplePool,
    sender: Seq<char>,
    shares: u128,
    min_amounts: Seq<u128>,
) -> bool {
    !(pre.shares_total_supply == 0 && shares == 0 && pre.shares@.contains_key(sender)
        && min_amounts.len() == 2)
}

/// What burning shares does: each reserve pays out its floor-rounded
/// share, the provider's balance and the total supply fall by exactly the
/// burned shares, and any failure leaves the pool untouched.
pub open spec fn remove_liquidity_post(
    pre: SimplePool,
    post: SimplePool,
    sender: Seq<char>,
    shares: u128,
    min_amounts: Seq<u128>,
    r: Result<Vec<u128>, ExchangeError>,
) -> bool {
    &&& min_amounts.len() != 2 ==> r == Err::<Vec<u128>, ExchangeError>(
        ExchangeError::WrongTokenCount,
    ) && post == pre
    &&& min_amounts.len() == 2 && !pre.shares@.contains_key(sender) ==> r == Err::<
        Vec<u128>,
        ExchangeError,
    >(ExchangeError::NoShares) && post == pre
    &&& min_amounts.len() == 2 && pre.shares@.contains_key(sender) && pre.shares@[sender] < shares
        ==> r == Err::<Vec<u128>, ExchangeError>(ExchangeError::NotEnoughShares) && post == pre
    &&& min_amounts.len() == 2 && pre.shares@.contains_key(sender) && pre.shares@[sender] >= shares
        ==> ({
        let total = pre.shares_total_supply as int;
        let res0 = pre.amounts@[0] as int;
        let res1 = pre.amounts@[1] as int;
        let a0 = mul_div(res0, shares as int, total);
        let a1 = mul_div(res1, shares as int, total);
        if a0 < min_amounts[0] || a1 < min_amounts[1] {
            r == Err::<Vec<u128>, ExchangeError>(ExchangeError::MinAmountNotMet) && post == pre
        } else {
            &&& 0 <= a0 <= res0
            &&& 0 <= a1 <= res1
            &&& r is Ok
            &&& r->Ok_0@ == seq![a0 as u128, a1 as u128]
            &&& post.amounts@ == seq![(res0 - a0) as u128, (res1 - a1) as u128]
            &&& post.shares@ == pre.shares@.insert(sender, (pre.shares@[sender] - shares) as u128)
            &&& post.shares_total_supply == total - shares
            &&& post.token_account_ids@ == pre.token_account_ids@
            &&& post.volumes@ == pre.volumes@
            &&& post.total_fee == pre.total_fee
        }
    })
}

/// Machine-limit bounds under which a swap cannot overflow: the fee-scaled
/// product stays within 256 bits and the grown reserve and volume counters
/// stay within 128 bits.
pub open spec fn swap_req(
    pre: SimplePool,
    token_in: Seq<char>,
    token_out: Seq<char>,
    amount_in: u128,
) -> bool {
    &&& pre.quote_in_range(token_in, token_out, amount_in)
    &&& pre.swap_valid(token_in, token_out, amount_in) ==> ({
        let ti = pre.token_index_spec(token_in);
        let to = pre.token_index_spec(token_out);
        &&& pre.amounts@[ti] + amount_in <= u128::MAX
        &&& pre.volumes@[ti].input + amount_in <= u128::MAX
        &&& pre.volumes@[to].output + swap_return(
            amount_in as int,
            pre.amounts@[ti] as int,
            pre.amounts@[to] as int,
            pre.total_fee as int,
        ) <= u128::MAX
    })
}

/// What a swap does: it charges exactly the quoted return, moves only the
/// two reserves and their volume counters, and never decreases the
/// product of the reserves — strictly increasing it when a fee is
/// charged. An invalid or under-slippage request leaves the pool
/// untouched.
pub open spec fn swap_post(
    pre: SimplePool,
    post: SimplePool,
    token_in: Seq<char>,
    token_out: Seq<char>,
    amount_in: u128,
    min_amount_out: u128,
    r: Result<u128, ExchangeError>,
) -> bool {
    &&& !pre.swap_valid(token_in, token_out, amount_in) ==> r == Err::<u128, ExchangeError>(
        ExchangeError::Invalid,
    ) && post == pre
    &&& pre.swap_valid(token_in, token_out, amount_in) ==> ({
        let ti = pre.token_index_spec(token_in);
        let to = pre.token_index_spec(token_out);
        let q = swap_return(
            amount_in as int,
            pre.amounts@[ti] as int,
            pre.amounts@[to] as int,
            pre.total_fee as int,
        );
        if q < min_amount_out {
            r == Err::<u128, ExchangeError>(ExchangeError::MinAmountNotMet) && post == pre
        } else {
            &&& r == Ok::<u128, ExchangeError>(q as u128)
            &&& post.amounts@ == pre.amounts@.update(ti, (pre.amounts@[ti] + amount_in) as u128)
                .update(to, (pre.amounts@[to] - q) as u128)
            &&& post.volumes@ == pre.volumes@.update(
                ti,
                SwapVolume {
                    input: (pre.volumes@[ti].input + amount_in) as u128,
                    output: pre.volumes@[ti].output,
                },
            ).update(
                to,
                SwapVolume {
                    input: pre.volumes@[to].input,
                    output: (pre.volumes@[to].output + q) as u128,
                },
            )
            &&& post.shares@ == pre.shares@
            &&& post.shares_total_supply == pre.shares_total_supply
            &&& post.token_account_ids@ == pre.token_account_ids@
            &&& post.total_fee == pre.total_fee
            &&& post.amounts@[0] * post.amounts@[1] >= pre.amounts@[0] * pre.amounts@[1]
            &&& pre.total_fee > 0 ==> post.amounts@[0] * post.amounts@[1] > pre.amounts@[0]
                * pre.amounts@[1]
        }
    })
}

/// A share of the reserve never exceeds the reserve: with `shares` at most
/// `total`, `floor(res * shares / total)` is at most `res`.
proof fn lemma_share_bounds(res: int, shares: int, total: int)
    requires
        0 <= res,
        0 <= shares <= total,
        0 < total,
    ensures
        0 <= mul_div(res, shares, total) <= res,
{
    assert(0 <= res * shares <= res * total) by (nonlinear_arith)
        requires
            0 <= res,
            0 <= shares <= total,
    ;
    lemma_div_is_ordered(res * shares, res * total, total);
    lemma_div_multiples_vanish(res, total);
    assert(res * total == total * res) by (nonlinear_arith);
    lemma_div_pos_is_pos(res * shares, total);
}

/// Bounds that make the deposit ratios safe: a supply no larger than
/// `req * total / res` turns back into at most `req` tokens.
proof fn lemma_fair_bounds(req: int, res: int, total: int, fair: int)
    requires
        res > 0,
        total > 0,
        req >= 0,
        0 <= fair,
        fair <= mul_div(req, total, res),
    ensures
        0 <= res * fair <= req * total,
        mul_div(res, fair, total) <= req,
        0 <= mul_div(res, fair, total),
{
    let q = mul_div(req, total, res);
    lemma_fundamental_div_mod(req * total, res);
    lemma_mod_pos_bound(req * total, res);
    assert(req * total >= 0) by (nonlinear_arith)
        requires
            req >= 0,
            total > 0,
    ;
    assert(res * q <= req * total) by (nonlinear_arith)
        requires
            req * total == res * ((req * total) / res) + (req * total) % res,
            q == (req * total) / res,
            (req * total) % res >= 0,
    ;
    assert(0 <= res * fair <= res * q) by (nonlinear_arith)
        requires
            0 <= fair,
            fair <= q,
            res > 0,
    ;
    lemma_div_is_ordered(res * fair, req * total, total);
    lemma_div_multiples_vanish(req, total);
    assert(req * total == total * req) by (nonlinear_arith);
    lemma_div_pos_is_pos(res * fair, total);
}

/// Shares minted for the first liquidity deposit, whatever its amounts.
pub const INIT_SHARES_SUPPLY: u128 = 1_000_000_000_000_000_000_000_000;

/// A two-token constant-product liquidity pool.
pub struct SimplePool {
    /// The two tokens this pool trades, in fixed order.
    pub token_account_ids: Vec<String>,
    /// Reserve of each token held by the pool.
    pub amounts: Vec<u128>,
    /// Cumulative swap volume through each token.
    pub volumes: Vec<SwapVolume>,
    /// Swap fee in basis points, taken out of every trade.
    pub total_fee: u32,
    /// Kept for layout compatibility; no longer charged.
    pub exchange_fee: u32,
    /// Kept for layout compatibility; no longer charged.
    pub referral_fee: u32,
    /// Shares of the pool held by liquidity providers.
    pub shares: Table<u128>,
    /// Total number of shares, always the sum of all holdings.
    pub shares_total_supply: u128,
}

impl SimplePool {
    /// Structural soundness: two distinct tokens, a legal fee, and share
    /// accounting whose total matches the sum of all holdings.
    pub open spec fn wf(&self) -> bool {
        &&& self.token_account_ids@.len() == 2
        &&& self.amounts@.len() == 2
        &&& self.volumes@.len() == 2
        &&& self.token_account_ids@[0]@ != self.token_account_ids@[1]@
        &&& self.total_fee < FEE_DIVISOR
        &&& self.shares.wf()
        &&& self.shares.sum() == self.shares_total_supply
    }

    /// Builds an empty pool over the given pair of tokens.
    pub fn new(token_account_ids: Vec<String>, total_fee: u32, exchange_fee: u32, referral_fee: u32)
        -> (r: Result<SimplePool, ExchangeError>)
        ensures
            total_fee >= FEE_DIVISOR ==> r == Err::<SimplePool, ExchangeError>(
                ExchangeError::FeeTooLarge,
            ),
            total_fee < FEE_DIVISOR && token_account_ids@.len() != 2 ==> r == Err::<
                SimplePool,
                ExchangeError,
            >(ExchangeError::WrongTokenCount),
            total_fee < FEE_DIVISOR && token_account_ids@.len() == 2 && token_account_ids@[0]@
                == token_account_ids@[1]@ ==> r == Err::<SimplePool, ExchangeError>(
                ExchangeError::DuplicateTokens,
            ),
            total_fee < FEE_DIVISOR && token_account_ids@.len() == 2 && token_account_ids@[0]@
                != token_account_ids@[1]@ ==> match r {
                Ok(p) => {
                    &&& p.wf()
                    &&& p.token_account_ids@ == token_account_ids@
                    &&& p.amounts@ == seq![0u128, 0u128]
                    &&& p.volumes@[0].input == 0 && p.volumes@[0].output == 0
                    &&& p.volumes@[1].input == 0 && p.volumes@[1].output == 0
                    &&& p.total_fee == total_fee
                    &&& p.exchange_fee == exchange_fee
                    &&& p.referral_fee == referral_fee
                    &&& p.shares@ == Map::<Seq<char>, u128>::empty()
                    &&& p.shares_total_supply == 0
                },
                Err(_) => false,
            },
    {
        if total_fee >= FEE_DIVISOR {
            return Err(ExchangeError::FeeTooLarge);
        }
        if token_account_ids.len() != 2 {
            return Err(ExchangeError::WrongTokenCount);
        }
        if token_account_ids[0] == token_account_ids[1] {
            return Err(ExchangeError::DuplicateTokens);
        }
        let mut amounts: Vec<u128> = Vec::new();
        amounts.push(0);
        amounts.push(0);
        let mut volumes: Vec<SwapVolume> = Vec::new();
        volumes.push(SwapVolume::default());
        volumes.push(SwapVolume::default());
        let p = SimplePool {
            token_account_ids,
            amounts,
            volumes,
            total_fee,
            exchange_fee,
            referral_fee,
            shares: Table::new(),
            shares_total_supply: 0,
        };
        proof {
            assert(p.amounts@ =~= seq![0u128, 0u128]);
        }
        Ok(p)
    }

    /// Registers `account_id` with zero shares; a provider must hold an
    /// entry before shares can be transferred to it.
    pub fn share_register(&mut self, account_id: &String) -> (r: Result<(), ExchangeError>)
        requires
            old(self).wf(),
        ensures
            final(self).wf(),
            old(self).shares@.contains_key(account_id@) ==> r == Err::<(), ExchangeError>(
                ExchangeError::AlreadyRegistered,
            ) && *final(self) == *old(self),
            !old(self).shares@.contains_key(account_id@) ==> r == Ok::<(), ExchangeError>(())
                && final(self).shares@ == old(self).shares@.insert(account_id@, 0u128)
                && final(self).shares_total_supply == old(self).shares_total_supply
                && final(self).token_account_ids@ == old(self).token_account_ids@
                && final(self).amounts@ == old(self).amounts@
                && final(self).volumes@ == old(self).volumes@
                && final(self).total_fee == old(self).total_fee,
    {
        if self.shares.contains_key(account_id) {
            return Err(ExchangeError::AlreadyRegistered);
        }
        self.shares.credit(account_id, 0);
        Ok(())
    }

    /// Moves `amount` shares between two registered providers.
    pub fn share_transfer(&mut self, sender_id: &String, receiver_id: &String, amount: u128) -> (r:
        Result<(), ExchangeError>)
        requires
            old(self).wf(),
            old(self).shares@.contains_key(receiver_id@) && receiver_id@ != sender_id@
                ==> old(self).shares@[receiver_id@] + amount <= u128::MAX,
        ensures
            final(self).wf(),
            !(old(self).shares@.contains_key(sender_id@) && old(self).shares@[sender_id@]
                >= amount) ==> r == Err::<(), ExchangeError>(ExchangeError::NoShares)
                && *final(self) == *old(self),
            old(self).shares@.contains_key(sender_id@) && old(self).shares@[sender_id@] >= amount
                && !old(self).shares@.contains_key(receiver_id@) ==> r == Err::<(), ExchangeError>(
                ExchangeError::NotRegistered,
            ) && *final(self) == *old(self),
            old(self).shares@.contains_key(sender_id@) && old(self).shares@[sender_id@] >= amount
                && old(self).shares@.contains_key(receiver_id@) ==> r == Ok::<(), ExchangeError>(())
                && final(self).shares@ == ({
                let debited = old(self).shares@.insert(
                    sender_id@,
                    (old(self).shares@[sender_id@] - amount) as u128,
                );
                debited.insert(receiver_id@, (balance_of(debited, receiver_id@) + amount) as u128)
            }) && final(self).shares_total_supply == old(self).shares_total_supply
                && final(self).token_account_ids@ == old(self).token_account_ids@
                && final(self).amounts@ == old(self).amounts@
                && final(self).volumes@ == old(self).volumes@
                && final(self).total_fee == old(self).total_fee,
    {
        let balance = match self.shares.get(sender_id) {
            Some(b) => *b,
            None => {
                return Err(ExchangeError::NoShares);
            },
        };
        if balance < amount {
            return Err(ExchangeError::NoShares);
        }
        if !self.shares.contains_key(receiver_id) {
            return Err(ExchangeError::NotRegistered);
        }
        self.shares.debit(sender_id, amount);
        self.shares.credit(receiver_id, amount);
        Ok(())
    }

    /// Shares held by `account_id`, zero when unregistered.
    pub fn share_balance_of(&self, account_id: &String) -> (r: u128)
        requires
            self.wf(),
        ensures
            r == balance_of(self.shares@, account_id@),
    {
        match self.shares.get(account_id) {
            Some(b) => *b,
            None => 0,
        }
    }

    /// Total number of shares in this pool.
    pub fn share_total_balance(&self) -> (r: u128)
        ensures
            r == self.shares_total_supply,
    {
        self.shares_total_supply
    }

    /// The pool's token pair.
    pub fn tokens(&self) -> (r: &Vec<String>)
        ensures
            r@ == self.token_account_ids@,
    {
        &self.token_account_ids
    }

    /// Mints `shares` for `account_id`; minting zero does nothing.
    fn mint_shares(&mut self, account_id: &String, shares: u128)
        requires
            old(self).wf(),
            balance_of(old(self).shares@, account_id@) + shares <= u128::MAX,
            old(self).shares_total_supply + shares <= u128::MAX,
        ensures
            final(self).wf(),
            shares == 0 ==> *final(self) == *old(self),
            shares > 0 ==> final(self).shares@ == old(self).shares@.insert(
                account_id@,
                (balance_of(old(self).shares@, account_id@) + shares) as u128,
            ) && final(self).shares_total_supply == old(self).shares_total_supply + shares
                && final(self).token_account_ids@ == old(self).token_account_ids@
                && final(self).amounts@ == old(self).amounts@
                && final(self).volumes@ == old(self).volumes@
                && final(self).total_fee == old(self).total_fee,
    {
        if shares == 0 {
            return ;
        }
        self.shares_total_supply = self.shares_total_supply + shares;
        crate::utils::add_to_collection(&mut self.shares, account_id, shares);
    }

    /// Adds liquidity. The first deposit sets the reserves verbatim and
    /// mints the fixed initial supply; later deposits are capped to the
    /// pool's current ratio and mint proportional shares. `amounts` is
    /// rewritten to what was actually consumed, which callers must debit
    /// instead of the requested amounts.
    pub fn add_liquidity(&mut self, sender_id: &String, amounts: &mut Vec<u128>) -> (r: Result<
        u128,
        ExchangeError,
    >)
        requires
            old(self).wf(),
            add_liquidity_req(*old(self), sender_id@, old(amounts)@),
        ensures
            final(self).wf(),
            add_liquidity_post(
                *old(self),
                *final(self),
                sender_id@,
                old(amounts)@,
                final(amounts)@,
                r,
            ),
    {
        if amounts.len() != 2 {
            return Err(ExchangeError::WrongTokenCount);
        }
        let req0 = amounts[0];
        let req1 = amounts[1];
        if self.shares_total_supply > 0 {
            if req0 == 0 || req1 == 0 {
                return Err(ExchangeError::ZeroAmount);
            }
            let res0 = self.amounts[0];
            let res1 = self.amounts[1];
            let total = self.shares_total_supply;
            let q0 = div_wide(mul_u128(req0, total), U256::from_u128(res0));
            let q1 = div_wide(mul_u128(req1, total), U256::from_u128(res1));
            let fair_w = if q0.le(q1) {
                q0
            } else {
                q1
            };
            let ghost fair = fair_supply(req0 as int, req1 as int, res0 as int, res1 as int, total as int);
            proof {
                assert(u256_val(fair_w) == fair);
                lemma_fair_bounds(req0 as int, res0 as int, total as int, fair);
                lemma_fair_bounds(req1 as int, res1 as int, total as int, fair);
                assert(res0 * fair <= req0 * total);
                assert(req0 * total < 0x10000000000000000000000000000000000000000000000000000000000000000)
                    by (nonlinear_arith)
                    requires
                        0 <= req0 < 0x100000000000000000000000000000000,
                        0 <= total < 0x100000000000000000000000000000000,
                ;
                assert(u256_val(fair_w) * res0 == res0 * fair) by (nonlinear_arith)
                    requires
                        u256_val(fair_w) == fair,
                ;
                assert(u256_val(fair_w) * res1 == res1 * fair) by (nonlinear_arith)
                    requires
                        u256_val(fair_w) == fair,
                ;
                assert(req1 * total < 0x10000000000000000000000000000000000000000000000000000000000000000)
                    by (nonlinear_arith)
                    requires
                        0 <= req1 < 0x100000000000000000000000000000000,
                        0 <= total < 0x100000000000000000000000000000000,
                ;
            }
            let n0 = mul_wide_u128(fair_w, res0);
            let n1 = mul_wide_u128(fair_w, res1);
            let a0w = div_wide(n0, U256::from_u128(total));
            let a1w = div_wide(n1, U256::from_u128(total));
            let a0 = a0w.as_u128();
            let a1 = a1w.as_u128();
            if a0 == 0 || a1 == 0 {
                return Err(ExchangeError::ZeroAmount);
            }
            let minted = fair_w.as_u128();
            if minted == 0 {
                proof {
                    lemma_div_pos_is_pos(res0 * fair, total as int);
                    assert(res0 * fair == 0) by (nonlinear_arith)
                        requires
                            fair == 0,
                    ;
                    assert(false);
                }
                return Err(ExchangeError::ZeroSharesMinted);
            }
            self.amounts[0] = res0 + a0;
            self.amounts[1] = res1 + a1;
            amounts[0] = a0;
            amounts[1] = a1;
            self.mint_shares(sender_id, minted);
            proof {
                assert(final(amounts)@ =~= seq![a0, a1]);
                assert(self.amounts@ =~= seq![(res0 + a0) as u128, (res1 + a1) as u128]);
            }
            Ok(minted)
        } else {
            let res0 = self.amounts[0];
            let res1 = self.amounts[1];
            self.amounts[0] = res0 + req0;
            self.amounts[1] = res1 + req1;
            proof {
                if self.shares@.contains_key(sender_id@) {
                    self.shares.lemma_balance_le_sum(sender_id@);
                }
            }
            self.mint_shares(sender_id, INIT_SHARES_SUPPLY);
            proof {
                assert(self.amounts@ =~= seq![
                    (old(self).amounts@[0] + old(amounts)@[0]) as u128,
                    (old(self).amounts@[1] + old(amounts)@[1]) as u128,
                ]);
            }
            Ok(INIT_SHARES_SUPPLY)
        }
    }

    /// Burns `shares` of the provider's stake and pays out the matching
    /// share of each reserve, rounded down; a full withdrawal leaves the
    /// provider's balance at exactly zero.
    pub fn remove_liquidity(&mut self, sender_id: &String, shares: u128, min_amounts: Vec<u128>)
        -> (r: Result<Vec<u128>, ExchangeError>)
        requires
            old(self).wf(),
            remove_liquidity_req(*old(self), sender_id@, shares, min_amounts@),
        ensures
            final(self).wf(),
            remove_liquidity_post(
                *old(self),
                *final(self),
                sender_id@,
                shares,
                min_amounts@,
                r,
            ),
    {
        if min_amounts.len() != 2 {
            return Err(ExchangeError::WrongTokenCount);
        }
        let prev_shares_amount = match self.shares.get(sender_id) {
            Some(b) => *b,
            None => {
                return Err(ExchangeError::NoShares);
            },
        };
        if prev_shares_amount < shares {
            return Err(ExchangeError::NotEnoughShares);
        }
        proof {
            self.shares.lemma_balance_le_sum(sender_id@);
        }
        let res0 = self.amounts[0];
        let res1 = self.amounts[1];
        let total = self.shares_total_supply;
        proof {
            lemma_share_bounds(res0 as int, shares as int, total as int);
            lemma_share_bounds(res1 as int, shares as int, total as int);
        }
        let a0 = div_wide(mul_u128(res0, shares), U256::from_u128(total)).as_u128();
        let a1 = div_wide(mul_u128(res1, shares), U256::from_u128(total)).as_u128();
        if a0 < min_amounts[0] || a1 < min_amounts[1] {
            return Err(ExchangeError::MinAmountNotMet);
        }
        self.amounts[0] = res0 - a0;
        self.amounts[1] = res1 - a1;
        self.shares.debit(sender_id, shares);
        self.shares_total_supply = total - shares;
        let mut result: Vec<u128> = Vec::new();
        result.push(a0);
        result.push(a1);
        proof {
            assert(result@ =~= seq![a0, a1]);
            assert(self.amounts@ =~= seq![(res0 - a0) as u128, (res1 - a1) as u128]);
        }
        Ok(result)
    }

    /// Position of a token in this pool, or a negative value when it is
    /// not one of the pair.
    pub open spec fn token_index_spec(&self, token: Seq<char>) -> int {
        if self.token_account_ids@[0]@ == token {
            0
        } else if self.token_account_ids@[1]@ == token {
            1
        } else {
            -1
        }
    }

    /// A quote request the pool can serve: both tokens known and distinct,
    /// both reserves funded, and a positive input.
    pub open spec fn swap_valid(&self, token_in: Seq<char>, token_out: Seq<char>, amount_in: u128)
        -> bool {
        let ti = self.token_index_spec(token_in);
        let to = self.token_index_spec(token_out);
        &&& ti >= 0
        &&& to >= 0
        &&& ti != to
        &&& self.amounts@[ti] > 0
        &&& self.amounts@[to] > 0
        &&& amount_in > 0
    }

    /// The swap the quote would perform stays within 256-bit arithmetic.
    pub open spec fn quote_in_range(&self, token_in: Seq<char>, token_out: Seq<char>, amount_in: u128)
        -> bool {
        self.swap_valid(token_in, token_out, amount_in) ==> (amount_in as int) * (FEE_DIVISOR
            - self.total_fee) * (self.amounts@[self.token_index_spec(token_out)] as int)
            < 0x10000000000000000000000000000000000000000000000000000000000000000
    }

    fn token_index(&self, token_id: &String) -> (r: Option<usize>)
        requires
            self.wf(),
        ensures
            match r {
                Some(i) => i == self.token_index_spec(token_id@) && i < 2,
                None => self.token_index_spec(token_id@) == -1,
            },
    {
        if self.token_account_ids[0] == *token_id {
            Some(0)
        } else if self.token_account_ids[1] == *token_id {
            Some(1)
        } else {
            None
        }
    }

    /// Quotes how much of `token_out` a swap of `amount_in` of `token_in`
    /// would return, without touching the pool.
    pub fn get_return(&self, token_in: &String, amount_in: u128, token_out: &String) -> (r: Result<
        u128,
        ExchangeError,
    >)
        requires
            self.wf(),
            self.quote_in_range(token_in@, token_out@, amount_in),
        ensures
            !self.swap_valid(token_in@, token_out@, amount_in) ==> r == Err::<u128, ExchangeError>(
                ExchangeError::Invalid,
            ),
            self.swap_valid(token_in@, token_out@, amount_in) ==> ({
                let q = swap_return(
                    amount_in as int,
                    self.amounts@[self.token_index_spec(token_in@)] as int,
                    self.amounts@[self.token_index_spec(token_out@)] as int,
                    self.total_fee as int,
                );
                &&& r == Ok::<u128, ExchangeError>(q as u128)
                &&& 0 <= q < self.amounts@[self.token_index_spec(token_out@)]
            }),
    {
        let ti = match self.token_index(token_in) {
            Some(i) => i,
            None => {
                return Err(ExchangeError::Invalid);
            },
        };
        let to = match self.token_index(token_out) {
            Some(i) => i,
            None => {
                return Err(ExchangeError::Invalid);
            },
        };
        let in_balance = self.amounts[ti];
        let out_balance = self.amounts[to];
        if !(in_balance > 0 && out_balance > 0 && ti != to && amount_in > 0) {
            return Err(ExchangeError::Invalid);
        }
        proof {
            lemma_swap_preserves_product(
                amount_in as int,
                in_balance as int,
                out_balance as int,
                self.total_fee as int,
            );
        }
        let fee_factor: u128 = (FEE_DIVISOR - self.total_fee) as u128;
        let amount_with_fee = mul_u128(amount_in, fee_factor);
        proof {
            assert((amount_in as int) * (fee_factor as int) <= 0xffffffffffffffffffffffffffffffff
                * 10000) by (nonlinear_arith)
                requires
                    0 <= amount_in <= 0xffffffffffffffffffffffffffffffff,
                    0 <= fee_factor <= 10000,
            ;
        }
        let den = mul_u128(in_balance, FEE_DIVISOR as u128).add_wide(amount_with_fee);
        proof {
            assert(u256_val(amount_with_fee) * (out_balance as int) == (amount_in as int) * (
            FEE_DIVISOR - self.total_fee) * (out_balance as int)) by (nonlinear_arith)
                requires
                    u256_val(amount_with_fee) == (amount_in as int) * (FEE_DIVISOR
                        - self.total_fee),
            ;
            assert((in_balance as int) * (FEE_DIVISOR as int) == (FEE_DIVISOR as int) * (
            in_balance as int)) by (nonlinear_arith);
        }
        let num = mul_wide_u128(amount_with_fee, out_balance);
        let q = div_wide(num, den);
        Ok(q.as_u128())
    }

    /// Executes a swap at exactly the quoted return, keeping the reserves
    /// and cumulative volumes in lock-step with `get_return`. The product
    /// of the reserves never decreases, and grows whenever a fee is
    /// charged.
    pub fn swap(
        &mut self,
        token_in: &String,
        amount_in: u128,
        token_out: &String,
        min_amount_out: u128,
    ) -> (r: Result<u128, ExchangeError>)
        requires
            old(self).wf(),
            swap_req(*old(self), token_in@, token_out@, amount_in),
        ensures
            final(self).wf(),
            swap_post(
                *old(self),
                *final(self),
                token_in@,
                token_out@,
                amount_in,
                min_amount_out,
                r,
            ),
    {
        let amount_out = match self.get_return(token_in, amount_in, token_out) {
            Ok(q) => q,
            Err(e) => {
                return Err(e);
            },
        };
        if amount_out < min_amount_out {
            return Err(ExchangeError::MinAmountNotMet);
        }
        let ti = match self.token_index(token_in) {
            Some(i) => i,
            None => {
                proof {
                    assert(false);
                }
                0
            },
        };
        let to = match self.token_index(token_out) {
            Some(i) => i,
            None => {
                proof {
                    assert(false);
                }
                0
            },
        };
        let ghost res_in = self.amounts@[ti as int] as int;
        let ghost res_out = self.amounts@[to as int] as int;
        proof {
            lemma_swap_preserves_product(
                amount_in as int,
                res_in,
                res_out,
                self.total_fee as int,
            );
        }
        let new_in = self.amounts[ti] + amount_in;
        let new_out = self.amounts[to] - amount_out;
        self.amounts[ti] = new_in;
        self.amounts[to] = new_out;
        let vol_in = self.volumes[ti];
        self.volumes[ti] = SwapVolume { input: vol_in.input + amount_in, output: vol_in.output };
        let vol_out = self.volumes[to];
        self.volumes[to] = SwapVolume { input: vol_out.input, output: vol_out.output + amount_out };
        proof {
            if ti == 0 {
                assert((new_in as int) * (new_out as int) == (res_in + amount_in) * (res_out
                    - swap_return(amount_in as int, res_in, res_out, self.total_fee as int)));
                assert((res_in as int) * (res_out as int) == old(self).amounts@[0] * old(
                    self,
                ).amounts@[1]);
            } else {
                assert((new_out as int) * (new_in as int) == (res_out - swap_return(
                    amount_in as int,
                    res_in,
                    res_out,
                    self.total_fee as int,
                )) * (res_in + amount_in)) by (nonlinear_arith)
                    requires
                        new_in == res_in + amount_in,
                        new_out == res_out - swap_return(
                            amount_in as int,
                            res_in,
                            res_out,
                            self.total_fee as int,
                        ),
                ;
                assert((res_out - swap_return(
                    amount_in as int,
                    res_in,
                    res_out,
                    self.total_fee as int,
                )) * (res_in + amount_in) == (res_in + amount_in) * (res_out - swap_return(
                    amount_in as int,
                    res_in,
                    res_out,
                    self.total_fee as int,
                ))) by (nonlinear_arith);
                assert((res_out as int) * (res_in as int) == (res_in as int) * (res_out as int))
                    by (nonlinear_arith);
            }
        }
        Ok(amount_out)
    }

    /// An equal, independently owned pool value.
    pub fn duplicate(&self) -> (r: SimplePool)
        ensures
            r.token_account_ids@ == self.token_account_ids@,
            r.amounts@ == self.amounts@,
            r.volumes@ == self.volumes@,
            r.total_fee == self.total_fee,
            r.exchange_fee == self.exchange_fee,
            r.referral_fee == self.referral_fee,
            r.shares@ == self.shares@,
            r.shares.entries@ == self.shares.entries@,
            r.shares_total_supply == self.shares_total_supply,
            r.wf() == self.wf(),
    {
        let n = self.token_account_ids.len();
        let mut token_account_ids: Vec<String> = Vec::new();
        let mut i: usize = 0;
        while i < n
            invariant
                n == self.token_account_ids@.len(),
                i <= n,
                token_account_ids@.len() == i,
                forall|j: int| 0 <= j < i ==> token_account_ids@[j] == self.token_account_ids@[j],
            decreases n - i,
        {
            token_account_ids.push(self.token_account_ids[i].clone());
            i = i + 1;
        }
        let m = self.amounts.len();
        let mut amounts: Vec<u128> = Vec::new();
        let mut j: usize = 0;
        while j < m
            invariant
                m == self.amounts@.len(),
                j <= m,
                amounts@.len() == j,
                forall|t: int| 0 <= t < j ==> amounts@[t] == self.amounts@[t],
            decreases m - j,
        {
            amounts.push(self.amounts[j]);
            j = j + 1;
        }
        let v = self.volumes.len();
        let mut volumes: Vec<SwapVolume> = Vec::new();
        let mut k: usize = 0;
        while k < v
            invariant
                v == self.volumes@.len(),
                k <= v,
                volumes@.len() == k,
                forall|t: int| 0 <= t < k ==> volumes@[t] == self.volumes@[t],
            decreases v - k,
        {
            volumes.push(self.volumes[k]);
            k = k + 1;
        }
        let r = SimplePool {
            token_account_ids,
            amounts,
            volumes,
            total_fee: self.total_fee,
            exchange_fee: self.exchange_fee,
            referral_fee: self.referral_fee,
            shares: self.shares.duplicate(),
            shares_total_supply: self.shares_total_supply,
        };
        proof {
            assert(r.token_account_ids@ =~= self.token_account_ids@);
            assert(r.amounts@ =~= self.amounts@);
            assert(r.volumes@ =~= self.volumes@);
        }
        r
    }

    /// The pool's swap fee in basis points.
    pub fn get_fee(&self) -> (r: u32)
        ensures
            r == self.total_fee,
    {
        self.total_fee
    }

    /// The cumulative volumes of both tokens.
    pub fn get_volumes(&self) -> (r: Vec<SwapVolume>)
        requires
            self.wf(),
        ensures
            r@ == self.volumes@,
    {
        let mut r: Vec<SwapVolume> = Vec::new();
        r.push(self.volumes[0]);
        r.push(self.volumes[1]);
        proof {
            assert(r@ =~= self.volumes@);
        }
        r
    }
}

} // verus!
