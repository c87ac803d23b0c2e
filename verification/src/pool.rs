//! The closed set of pool variants behind one dispatch surface. Today the
//! set has one member, the constant-product pool; a new variant would add
//! a case here without changing callers.
use vstd::prelude::*;

use crate::errors::ExchangeError;
use crate::simple_pool::{
    add_liquidity_post, add_liquidity_req, remove_liquidity_post, remove_liquidity_req, swap_post,
    swap_req, SimplePool,
};
use crate::table::balance_of;
use crate::utils::SwapVolume;

verus! {

/// A liquidity pool of any supported kind.
pub enum Pool {
    SimplePool(SimplePool),
}

impl Pool {
    /// The underlying constant-product pool.
    pub open spec fn as_simple(&self) -> SimplePool {
        match self {
            Pool::SimplePool(p) => *p,
        }
    }

    /// Structural soundness of the underlying pool.
    pub open spec fn wf(&self) -> bool {
        self.as_simple().wf()
    }

    /// An equal, independently owned pool value.
    pub fn duplicate(&self) -> (r: Pool)
        ensures
            r.as_simple().token_account_ids@ == self.as_simple().token_account_ids@,
            r.as_simple().amounts@ == self.as_simple().amounts@,
            r.as_simple().volumes@ == self.as_simple().volumes@,
            r.as_simple().total_fee == self.as_simple().total_fee,
            r.as_simple().exchange_fee == self.as_simple().exchange_fee,
            r.as_simple().referral_fee == self.as_simple().referral_fee,
            r.as_simple().shares@ == self.as_simple().shares@,
            r.as_simple().shares.entries@ == self.as_simple().shares.entries@,
            r.as_simple().shares_total_supply == self.as_simple().shares_total_supply,
            r.wf() == self.wf(),
    {
        match self {
            Pool::SimplePool(p) => Pool::SimplePool(p.duplicate()),
        }
    }

    /// A short name for the pool's kind.
    pub fn kind(&self) -> (r: String)
        ensures
            r@ == "SIMPLE_POOL"@,
    {
        match self {
            Pool::SimplePool(_) => "SIMPLE_POOL".to_owned(),
        }
    }

    /// Registers a zero-share entry for `account_id`.
    pub fn share_register(&mut self, account_id: &String) -> (r: Result<(), ExchangeError>)
        requires
            old(self).wf(),
        ensures
            final(self).wf(),
            old(self).as_simple().shares@.contains_key(account_id@) ==> r == Err::<
                (),
                ExchangeError,
            >(ExchangeError::AlreadyRegistered) && *final(self) == *old(self),
            !old(self).as_simple().shares@.contains_key(account_id@) ==> r == Ok::<
                (),
                ExchangeError,
            >(()) && final(self).as_simple().shares@ == old(self).as_simple().shares@.insert(
                account_id@,
                0u128,
            ) && final(self).as_simple().shares_total_supply == old(
                self,
            ).as_simple().shares_total_supply && final(self).as_simple().token_account_ids@ == old(
                self,
            ).as_simple().token_account_ids@ && final(self).as_simple().amounts@ == old(
                self,
            ).as_simple().amounts@ && final(self).as_simple().volumes@ == old(
                self,
            ).as_simple().volumes@ && final(self).as_simple().total_fee == old(
                self,
            ).as_simple().total_fee,
    {
        match self {
            Pool::SimplePool(p) => p.share_register(account_id),
        }
    }

    /// Adds liquidity; see the constant-product pool for the exact rules.
    pub fn add_liquidity(&mut self, sender_id: &String, amounts: &mut Vec<u128>) -> (r: Result<
        u128,
        ExchangeError,
    >)
        requires
            old(self).wf(),
            add_liquidity_req(old(self).as_simple(), sender_id@, old(amounts)@),
        ensures
            final(self).wf(),
            add_liquidity_post(
                old(self).as_simple(),
                final(self).as_simple(),
                sender_id@,
                old(amounts)@,
                final(amounts)@,
                r,
            ),
    {
        match self {
            Pool::SimplePool(p) => p.add_liquidity(sender_id, amounts),
        }
    }

    /// The pool's token pair.
    pub fn tokens(&self) -> (r: &Vec<String>)
        ensures
            r@ == self.as_simple().token_account_ids@,
    {
        match self {
            Pool::SimplePool(p) => p.tokens(),
        }
    }

    /// Burns shares for their slice of the reserves.
    pub fn remove_liquidity(&mut self, sender_id: &String, shares: u128, min_amounts: Vec<u128>)
        -> (r: Result<Vec<u128>, ExchangeError>)
        requires
            old(self).wf(),
            remove_liquidity_req(old(self).as_simple(), sender_id@, shares, min_amounts@),
        ensures
            final(self).wf(),
            remove_liquidity_post(
                old(self).as_simple(),
                final(self).as_simple(),
                sender_id@,
                shares,
                min_amounts@,
                r,
            ),
    {
        match self {
            Pool::SimplePool(p) => p.remove_liquidity(sender_id, shares, min_amounts),
        }
    }

    /// Swaps at the quoted rate, keeping quote and execution in lock-step.
    pub fn swap(
        &mut self,
        token_in: &String,
        amount_in: u128,
        token_out: &String,
        min_amount_out: u128,
    ) -> (r: Result<u128, ExchangeError>)
        requires
            old(self).wf(),
            swap_req(old(self).as_simple(), token_in@, token_out@, amount_in),
        ensures
            final(self).wf(),
            swap_post(
                old(self).as_simple(),
                final(self).as_simple(),
                token_in@,
                token_out@,
                amount_in,
                min_amount_out,
                r,
            ),
    {
        match self {
            Pool::SimplePool(p) => p.swap(token_in, amount_in, token_out, min_amount_out),
        }
    }

    /// Quotes a swap without touching the pool.
    pub fn get_return(&self, token_in: &String, amount_in: u128, token_out: &String) -> (r: Result<
        u128,
        ExchangeError,
    >)
        requires
            self.wf(),
            self.as_simple().quote_in_range(token_in@, token_out@, amount_in),
        ensures
            !self.as_simple().swap_valid(token_in@, token_out@, amount_in) ==> r == Err::<
                u128,
                ExchangeError,
            >(ExchangeError::Invalid),
            self.as_simple().swap_valid(token_in@, token_out@, amount_in) ==> r == Ok::<
                u128,
                ExchangeError,
            >(
                crate::simple_pool::swap_return(
                    amount_in as int,
                    self.as_simple().amounts@[self.as_simple().token_index_spec(token_in@)] as int,
                    self.as_simple().amounts@[self.as_simple().token_index_spec(token_out@)] as int,
                    self.as_simple().total_fee as int,
                ) as u128,
            ),
    {
        match self {
            Pool::SimplePool(p) => p.get_return(token_in, amount_in, token_out),
        }
    }

    /// The cumulative volumes of the pool's tokens.
    pub fn get_volumes(&self) -> (r: Vec<SwapVolume>)
        requires
            self.wf(),
        ensures
            r@ == self.as_simple().volumes@,
    {
        match self {
            Pool::SimplePool(p) => p.get_volumes(),
        }
    }

    /// Shares held by `account_id` in this pool.
    pub fn share_balances(&self, account_id: &String) -> (r: u128)
        requires
            self.wf(),
        ensures
            r == balance_of(self.as_simple().shares@, account_id@),
    {
        match self {
            Pool::SimplePool(p) => p.share_balance_of(account_id),
        }
    }

    /// Total number of shares in this pool.
    pub fn share_total_balance(&self) -> (r: u128)
        ensures
            r == self.as_simple().shares_total_supply,
    {
        match self {
            Pool::SimplePool(p) => p.share_total_balance(),
        }
    }
}

} // verus!
