//! Read-only projections of the exchange's state: pool listings and
//! per-pool metadata. Nothing here mutates.
use vstd::prelude::*;

use crate::errors::ExchangeError;
use crate::pool::Pool;
use crate::table::balance_of;
use crate::utils::SwapVolume;
use crate::Contract;

verus! {

/// A snapshot of one pool's public metadata.
pub struct PoolInfo {
    /// Pool kind.
    pub pool_kind: String,
    /// List of tokens in the pool.
    pub token_account_ids: Vec<String>,
    /// Reserve of each token.
    pub amounts: Vec<u128>,
    /// Fee charged for swap.
    pub total_fee: u32,
    /// Total number of shares.
    pub shares_total_supply: u128,
    /// Amplification factor of curve-style pools; zero for the
    /// constant-product kind.
    pub amp: u64,
}

/// A snapshot agrees with a pool field by field.
pub open spec fn describes_pool(info: PoolInfo, pool: Pool) -> bool {
    &&& info.pool_kind@ == "SIMPLE_POOL"@
    &&& info.token_account_ids@.len() == pool.as_simple().token_account_ids@.len()
    &&& forall|i: int|
        0 <= i < info.token_account_ids@.len() ==> info.token_account_ids@[i]@
            == pool.as_simple().token_account_ids@[i]@
    &&& info.amounts@ == pool.as_simple().amounts@
    &&& info.total_fee == pool.as_simple().total_fee
    &&& info.shares_total_supply == pool.as_simple().shares_total_supply
    &&& info.amp == 0
}

impl PoolInfo {
    /// Takes a pool's public snapshot.
    pub fn from_pool(pool: &Pool) -> (r: PoolInfo)
        requires
            pool.wf(),
        ensures
            describes_pool(r, *pool),
    {
        let p = pool.duplicate();
        let kind = pool.kind();
        match p {
            Pool::SimplePool(sp) => PoolInfo {
                pool_kind: kind,
                token_account_ids: sp.token_account_ids,
                amounts: sp.amounts,
                total_fee: sp.total_fee,
                shares_total_supply: sp.shares_total_supply,
                amp: 0,
            },
        }
    }
}

impl Contract {
    /// Snapshots of up to `limit` pools starting at `from_index`.
    pub fn get_pools(&self, from_index: usize, limit: usize) -> (r: Vec<PoolInfo>)
        requires
            self.wf(),
        ensures
            from_index >= self.pools@.len() ==> r@.len() == 0,
            from_index < self.pools@.len() ==> ({
                let end = if from_index + limit <= self.pools@.len() {
                    from_index + limit
                } else {
                    self.pools@.len() as int
                };
                &&& r@.len() == end - from_index
                &&& forall|i: int|
                    0 <= i < r@.len() ==> describes_pool(r@[i], self.pools@[from_index + i])
            }),
    {
        let n = self.pools.len();
        if from_index >= n {
            return Vec::new();
        }
        let end = if limit <= n - from_index {
            from_index + limit
        } else {
            n
        };
        let mut r: Vec<PoolInfo> = Vec::new();
        let mut i: usize = from_index;
        while i < end
            invariant
                self.wf(),
                n == self.pools@.len(),
                from_index <= i <= end,
                end <= n,
                r@.len() == i - from_index,
                forall|j: int|
                    0 <= j < r@.len() ==> describes_pool(r@[j], self.pools@[from_index + j]),
            decreases end - i,
        {
            r.push(PoolInfo::from_pool(&self.pools[i]));
            i = i + 1;
        }
        r
    }

    /// A snapshot of the pool at `pool_id`.
    pub fn get_pool(&self, pool_id: usize) -> (r: Result<PoolInfo, ExchangeError>)
        requires
            self.wf(),
        ensures
            pool_id >= self.pools@.len() ==> r == Err::<PoolInfo, ExchangeError>(
                ExchangeError::NoPool,
            ),
            pool_id < self.pools@.len() ==> r is Ok && describes_pool(
                r->Ok_0,
                self.pools@[pool_id as int],
            ),
    {
        if pool_id >= self.pools.len() {
            return Err(ExchangeError::NoPool);
        }
        Ok(PoolInfo::from_pool(&self.pools[pool_id]))
    }

    /// The cumulative swap volumes of the pool at `pool_id`.
    pub fn get_pool_volumes(&self, pool_id: usize) -> (r: Result<Vec<SwapVolume>, ExchangeError>)
        requires
            self.wf(),
        ensures
            pool_id >= self.pools@.len() ==> r == Err::<Vec<SwapVolume>, ExchangeError>(
                ExchangeError::NoPool,
            ),
            pool_id < self.pools@.len() ==> r is Ok && r->Ok_0@ == self.pools@[pool_id as int].as_simple().volumes@,
    {
        if pool_id >= self.pools.len() {
            return Err(ExchangeError::NoPool);
        }
        Ok(self.pools[pool_id].get_volumes())
    }

    /// The shares `account_id` holds in the pool at `pool_id`.
    pub fn get_pool_shares(&self, pool_id: usize, account_id: &String) -> (r: Result<
        u128,
        ExchangeError,
    >)
        requires
            self.wf(),
        ensures
            pool_id >= self.pools@.len() ==> r == Err::<u128, ExchangeError>(ExchangeError::NoPool),
            pool_id < self.pools@.len() ==> r == Ok::<u128, ExchangeError>(
                balance_of(self.pools@[pool_id as int].as_simple().shares@, account_id@),
            ),
    {
        if pool_id >= self.pools.len() {
            return Err(ExchangeError::NoPool);
        }
        Ok(self.pools[pool_id].share_balances(account_id))
    }

    /// The total number of shares in the pool at `pool_id`.
    pub fn get_pool_total_shares(&self, pool_id: usize) -> (r: Result<u128, ExchangeError>)
        requires
            self.wf(),
        ensures
            pool_id >= self.pools@.len() ==> r == Err::<u128, ExchangeError>(ExchangeError::NoPool),
            pool_id < self.pools@.len() ==> r == Ok::<u128, ExchangeError>(
                self.pools@[pool_id as int].as_simple().shares_total_supply,
            ),
    {
        if pool_id >= self.pools.len() {
            return Err(ExchangeError::NoPool);
        }
        Ok(self.pools[pool_id].share_total_balance())
    }

    /// How many pools the arena holds.
    pub fn get_number_of_pools(&self) -> (r: usize)
        ensures
            r == self.pools@.len(),
    {
        self.pools.len()
    }
}

} // verus!
