//! Settlement core of a token-exchange service: per-account token ledgers with
//! storage-rent accounting, two-asset constant-product liquidity pools, and a
//! compensating withdrawal protocol around an external token-transfer call.
use vstd::prelude::*;

mod errors;
mod pool;
mod simple_pool;
mod table;
mod utils;
mod views;
mod wide_math;

pub use errors::ExchangeError;
pub use pool::Pool;
use table::balance_of;
pub use simple_pool::{SimplePool, INIT_SHARES_SUPPLY};
use simple_pool::{add_liquidity_req, fair_supply, mul_div, remove_liquidity_req};
pub use table::Table;
pub use utils::{add_to_collection, check_token_duplicates, integer_sqrt, SwapVolume, FEE_DIVISOR};
pub use views::PoolInfo;
pub use wide_math::{div_wide, mul_div_u128, mul_u128, mul_wide_u128, U256};

verus! {

broadcast use vstd::std_specs::vec::axiom_spec_len;

// Storage footprint of one account record, in bytes: a fixed overhead for
// the record itself plus a linear cost per registered token. The byte
// counts and the per-byte price mirror the host platform's storage
// billing; the shape of the formula is the contract.
pub const U128_STORAGE: u64 = 16;
pub const U64_STORAGE: u64 = 8;
pub const U32_STORAGE: u64 = 4;
/// Account identifiers are at most 64 bytes and are charged in full.
pub const ACC_ID_STORAGE: u64 = 64;
/// An identifier used as a key carries a 4-byte length prefix.
pub const ACC_ID_AS_KEY_STORAGE: u64 = ACC_ID_STORAGE + 4;
pub const KEY_PREFIX_ACC: u64 = 64;
/// A collection key adds one prefix byte.
pub const ACC_ID_AS_CLT_KEY_STORAGE: u64 = ACC_ID_AS_KEY_STORAGE + 1;
/// Fixed overhead of an account record: its key, a tag byte, the rent
/// balance, the token count and a usage counter.
pub const INIT_ACCOUNT_STORAGE: u64 = ACC_ID_AS_CLT_KEY_STORAGE + 1 + U128_STORAGE + U32_STORAGE
    + U64_STORAGE;
/// Each registered token stores its key prefix, its identifier and a
/// 128-bit balance.
pub const TOKEN_ENTRY_STORAGE: u64 = KEY_PREFIX_ACC + ACC_ID_AS_KEY_STORAGE + U128_STORAGE;
/// Rent charged per persisted byte.
pub const STORAGE_PRICE_PER_BYTE: u128 = 10_000_000_000_000_000_000;

/// Rent owed by an account holding `n` token entries.
pub open spec fn storage_cost_of(n: int) -> int {
    (INIT_ACCOUNT_STORAGE + n * TOKEN_ENTRY_STORAGE) * STORAGE_PRICE_PER_BYTE
}

/// Registers each identifier in turn with a zero balance, skipping those
/// already present.
pub open spec fn with_registered(m: Map<Seq<char>, u128>, ids: Seq<Seq<char>>) -> Map<
    Seq<char>,
    u128,
>
    decreases ids.len(),
{
    if ids.len() == 0 {
        m
    } else {
        let m1 = with_registered(m, ids.drop_last());
        if m1.contains_key(ids.last()) {
            m1
        } else {
            m1.insert(ids.last(), 0u128)
        }
    }
}

/// Drops each identifier in turn; dropping an absent identifier does
/// nothing. Only meaningful when no step fails.
pub open spec fn with_unregistered(m: Map<Seq<char>, u128>, ids: Seq<Seq<char>>) -> Map<
    Seq<char>,
    u128,
>
    decreases ids.len(),
{
    if ids.len() == 0 {
        m
    } else {
        with_unregistered(m, ids.drop_last()).remove(ids.last())
    }
}

/// Whether unregistering the identifiers in turn hits one whose balance
/// is not zero, which aborts the whole operation.
pub open spec fn unregister_fails(m: Map<Seq<char>, u128>, ids: Seq<Seq<char>>) -> bool
    decreases ids.len(),
{
    if ids.len() == 0 {
        false
    } else {
        ||| unregister_fails(m, ids.drop_last())
        ||| ({
            let m1 = with_unregistered(m, ids.drop_last());
            m1.contains_key(ids.last()) && m1[ids.last()] != 0
        })
    }
}

/// A failure in a prefix is a failure of the whole list.
proof fn lemma_unregister_fails_mono(m: Map<Seq<char>, u128>, ids: Seq<Seq<char>>, j: int)
    requires
        0 <= j <= ids.len(),
        unregister_fails(m, ids.subrange(0, j)),
    ensures
        unregister_fails(m, ids),
    decreases ids.len() - j,
{
    if j == ids.len() {
        assert(ids.subrange(0, j) =~= ids);
    } else {
        assert(ids.subrange(0, j + 1).drop_last() =~= ids.subrange(0, j));
        lemma_unregister_fails_mono(m, ids, j + 1);
    }
}

/// A per-principal record: prepaid rent and one balance per registered
/// token.
pub struct Account {
    /// Rent deposit backing this account's storage footprint.
    pub near_amount: u128,
    /// Balance held for each registered token.
    pub tokens: Table<u128>,
}

impl Account {
    /// Sound token accounting, with the token count within the record's
    /// 32-bit counter.
    pub open spec fn wf(&self) -> bool {
        &&& self.tokens.wf()
        &&& self.tokens.entries@.len() <= u32::MAX
    }

    /// Rent owed by this account's current footprint.
    pub open spec fn storage_cost(&self) -> int {
        storage_cost_of(self.tokens@.len() as int)
    }

    /// A fresh record with no rent and no tokens; the identifier names
    /// the owner but the in-memory record does not need it.
    pub fn new(_account_id: &String) -> (r: Account)
        ensures
            r.wf(),
            r.near_amount == 0,
            r.tokens@ == Map::<Seq<char>, u128>::empty(),
            r.tokens.entries@.len() == 0,
    {
        Account { near_amount: 0, tokens: Table::new() }
    }

    /// An equal, independently owned record.
    pub fn duplicate(&self) -> (r: Account)
        ensures
            r.near_amount == self.near_amount,
            r.tokens@ == self.tokens@,
            r.tokens.entries@ == self.tokens.entries@,
            r.wf() == self.wf(),
    {
        Account { near_amount: self.near_amount, tokens: self.tokens.duplicate() }
    }

    /// The balance held for `token_id`, or nothing when unregistered.
    pub fn get_balance(&self, token_id: &String) -> (r: Option<u128>)
        requires
            self.wf(),
        ensures
            match r {
                Some(b) => self.tokens@.contains_key(token_id@) && b == self.tokens@[token_id@],
                None => !self.tokens@.contains_key(token_id@),
            },
    {
        match self.tokens.get(token_id) {
            Some(b) => Some(*b),
            None => None,
        }
    }

    /// Registers each listed token with a zero balance; tokens already
    /// present keep their balance. Idempotent per token.
    pub fn register(&mut self, token_ids: &Vec<String>)
        requires
            old(self).wf(),
            old(self).tokens.entries@.len() + token_ids@.len() <= u32::MAX,
        ensures
            final(self).wf(),
            final(self).near_amount == old(self).near_amount,
            final(self).tokens@ == with_registered(
                old(self).tokens@,
                token_ids@.map_values(|t: String| t@),
            ),
            old(self).tokens.entries@.len() <= final(self).tokens.entries@.len() <= old(self).tokens.entries@.len() + token_ids@.len(),
    {
        let ghost views = token_ids@.map_values(|t: String| t@);
        let n = token_ids.len();
        let mut i: usize = 0;
        while i < n
            invariant
                n == token_ids@.len(),
                i <= n,
                views == token_ids@.map_values(|t: String| t@),
                self.tokens.wf(),
                self.near_amount == old(self).near_amount,
                self.tokens@ == with_registered(old(self).tokens@, views.subrange(0, i as int)),
                old(self).tokens.entries@.len() <= self.tokens.entries@.len() <= old(self).tokens.entries@.len() + i,
                old(self).tokens.entries@.len() + token_ids@.len() <= u32::MAX,
            decreases n - i,
        {
            let ghost pre = views.subrange(0, i as int);
            let ghost nxt = views.subrange(0, i + 1);
            proof {
                assert(nxt.drop_last() =~= pre);
                assert(nxt.last() == views[i as int]);
            }
            let token = &token_ids[i];
            if !self.tokens.contains_key(token) {
                self.tokens.insert(token.clone(), 0);
            }
            i = i + 1;
        }
        proof {
            assert(views.subrange(0, n as int) =~= views);
        }
    }

    /// Drops the entry for `token_id`; refused when its balance is not
    /// zero, so funds are never silently burned. Unregistering an absent
    /// token does nothing.
    pub fn unregister(&mut self, token_id: &String) -> (r: Result<(), ExchangeError>)
        requires
            old(self).wf(),
        ensures
            final(self).wf(),
            old(self).tokens@.contains_key(token_id@) && old(self).tokens@[token_id@] != 0 ==> r
                == Err::<(), ExchangeError>(ExchangeError::NonZeroTokenBalance) && *final(self)
                == *old(self),
            old(self).tokens@.contains_key(token_id@) && old(self).tokens@[token_id@] == 0 ==> r
                == Ok::<(), ExchangeError>(()) && final(self).tokens@ == old(self).tokens@.remove(token_id@) && final(self).near_amount == old(self).near_amount
                && final(self).tokens.entries@.len() == old(self).tokens.entries@.len() - 1,
            !old(self).tokens@.contains_key(token_id@) ==> r == Ok::<(), ExchangeError>(())
                && *final(self) == *old(self),
    {
        match self.tokens.get(token_id) {
            Some(b) => {
                if *b != 0 {
                    return Err(ExchangeError::NonZeroTokenBalance);
                }
                self.tokens.remove(token_id);
                Ok(())
            },
            None => Ok(()),
        }
    }

    /// Rent necessary to cover the storage this record occupies.
    pub fn storage_usage(&self) -> (r: u128)
        requires
            self.wf(),
        ensures
            r == self.storage_cost(),
    {
        let count = self.tokens.len() as u64;
        proof {
            assert(INIT_ACCOUNT_STORAGE == 98 && TOKEN_ENTRY_STORAGE == 148);
            assert(count <= u32::MAX);
            assert(count * TOKEN_ENTRY_STORAGE <= 0xffffffffu64 * 148);
        }
        ((INIT_ACCOUNT_STORAGE + count * TOKEN_ENTRY_STORAGE) as u128) * STORAGE_PRICE_PER_BYTE
    }

    /// Checks that the rent deposit covers the current footprint.
    pub fn assert_storage_usage(&self) -> (r: Result<(), ExchangeError>)
        requires
            self.wf(),
        ensures
            r == if self.storage_cost() > self.near_amount {
                Err::<(), ExchangeError>(ExchangeError::InsufficientStorage)
            } else {
                Ok::<(), ExchangeError>(())
            },
    {
        if self.storage_usage() > self.near_amount {
            Err(ExchangeError::InsufficientStorage)
        } else {
            Ok(())
        }
    }

    /// The smallest rent deposit any account can need.
    pub fn min_storage_usage() -> (r: u128)
        ensures
            r == storage_cost_of(0),
    {
        (INIT_ACCOUNT_STORAGE as u128) * STORAGE_PRICE_PER_BYTE
    }

    /// Rent not locked by the current footprint, available for withdrawal.
    pub fn storage_available(&self) -> (r: u128)
        requires
            self.wf(),
        ensures
            r == if self.near_amount > self.storage_cost() {
                self.near_amount - self.storage_cost()
            } else {
                0int
            },
    {
        let locked = self.storage_usage();
        if self.near_amount > locked {
            self.near_amount - locked
        } else {
            0
        }
    }

    /// The registered tokens, in storage order.
    pub fn get_tokens(&self) -> (r: Vec<String>)
        requires
            self.wf(),
        ensures
            r@.len() == self.tokens.entries@.len(),
            forall|i: int| 0 <= i < r@.len() ==> r@[i]@ == self.tokens.entries@[i].key@,
    {
        let n = self.tokens.len();
        let mut r: Vec<String> = Vec::new();
        let mut i: usize = 0;
        while i < n
            invariant
                self.wf(),
                n == self.tokens.entries@.len(),
                i <= n,
                r@.len() == i,
                forall|j: int| 0 <= j < i ==> r@[j]@ == self.tokens.entries@[j].key@,
            decreases n - i,
        {
            r.push(self.tokens.key_at(i).clone());
            i = i + 1;
        }
        r
    }

    /// Credits `amount` of `token`, creating the entry when absent.
    pub fn deposit(&mut self, token: &String, amount: u128)
        requires
            old(self).wf(),
            balance_of(old(self).tokens@, token@) + amount <= u128::MAX,
            old(self).tokens.entries@.len() + 1 <= u32::MAX,
        ensures
            final(self).wf(),
            final(self).near_amount == old(self).near_amount,
            final(self).tokens@ == old(self).tokens@.insert(
                token@,
                (balance_of(old(self).tokens@, token@) + amount) as u128,
            ),
            final(self).tokens.entries@.len() == if old(self).tokens@.contains_key(token@) {
                old(self).tokens.entries@.len() as int
            } else {
                old(self).tokens.entries@.len() + 1int
            },
    {
        self.tokens.credit(token, amount);
    }

    /// Debits `amount` of `token`; refused when the token is unregistered
    /// or the balance is too small.
    pub fn withdraw(&mut self, token: &String, amount: u128) -> (r: Result<(), ExchangeError>)
        requires
            old(self).wf(),
        ensures
            final(self).wf(),
            !old(self).tokens@.contains_key(token@) ==> r == Err::<(), ExchangeError>(
                ExchangeError::TokenNotRegistered,
            ) && *final(self) == *old(self),
            old(self).tokens@.contains_key(token@) && old(self).tokens@[token@] < amount ==> r
                == Err::<(), ExchangeError>(ExchangeError::NotEnoughFunds) && *final(self) == *old(self),
            old(self).tokens@.contains_key(token@) && old(self).tokens@[token@] >= amount ==> r
                == Ok::<(), ExchangeError>(()) && final(self).tokens@ == old(self).tokens@.insert(token@, (old(self).tokens@[token@] - amount) as u128) && final(self).near_amount == old(self).near_amount && final(self).tokens.entries@.len() == old(self).tokens.entries@.len(),
    {
        let x = match self.tokens.get(token) {
            Some(b) => *b,
            None => {
                return Err(ExchangeError::TokenNotRegistered);
            },
        };
        if x < amount {
            return Err(ExchangeError::NotEnoughFunds);
        }
        self.tokens.debit(token, amount);
        Ok(())
    }

    /// Credits `amount` of `token` if the account's rent still covers the
    /// footprint afterwards; reports failure softly instead of aborting,
    /// for use inside the settlement rollback. On failure the account is
    /// left unchanged.
    pub fn deposit_with_storage_check(&mut self, token: &String, amount: u128) -> (r: bool)
        requires
            old(self).wf(),
            balance_of(old(self).tokens@, token@) + amount <= u128::MAX,
            old(self).tokens.entries@.len() + 1 <= u32::MAX,
        ensures
            final(self).wf(),
            final(self).near_amount == old(self).near_amount,
            old(self).tokens@.contains_key(token@) ==> r == true && final(self).tokens@ == old(self).tokens@.insert(token@, (old(self).tokens@[token@] + amount) as u128) && final(self).tokens.entries@.len() == old(self).tokens.entries@.len(),
            !old(self).tokens@.contains_key(token@) ==> ({
                if storage_cost_of(old(self).tokens@.len() + 1int) <= old(self).near_amount {
                    r == true && final(self).tokens@ == old(self).tokens@.insert(token@, amount)
                        && final(self).tokens.entries@.len() == old(self).tokens.entries@.len() + 1
                } else {
                    r == false && final(self).tokens@ == old(self).tokens@ && final(self).tokens.entries@.len() == old(self).tokens.entries@.len()
                }
            }),
    {
        proof {
            self.tokens.lemma_view_len();
        }
        let registered = self.tokens.contains_key(token);
        self.tokens.credit(token, amount);
        proof {
            self.tokens.lemma_view_len();
        }
        if registered {
            true
        } else {
            if self.storage_usage() <= self.near_amount {
                true
            } else {
                self.tokens.remove(token);
                proof {
                    assert(self.tokens@ =~= old(self).tokens@);
                }
                false
            }
        }
    }
}

/// The outbound transfer a withdrawal commits to: after the synchronous
/// debit the host must send `amount` of `token_id` to `sender_id` and
/// later hand the outcome to `exchange_callback_post_withdraw`.
#[derive(Debug)]
pub struct WithdrawRequest {
    pub sender_id: String,
    pub token_id: String,
    pub amount: u128,
}

/// The final outcome of one external transfer, as delivered to the
/// settlement callback.
#[derive(Clone, Copy, Debug, PartialEq, Eq, Structural)]
pub enum TransferResult {
    Successful,
    Failed,
}

/// The exchange: account ledger, allow-list, and liquidity pools.
pub struct Contract {
    /// Operator principal; also the lost-and-found ledger.
    pub owner_id: String,
    /// One record per registered principal.
    pub accounts: Table<Account>,
    /// Tokens allowed to be parked in lost-and-found.
    pub whitelisted_tokens: Vec<String>,
    /// Kept for layout compatibility; no longer charged.
    pub exchange_fee: u32,
    /// Kept for layout compatibility; no longer charged.
    pub referral_fee: u32,
    /// Append-only pool arena; a pool's index is its permanent identifier.
    pub pools: Vec<Pool>,
}

/// Two account values that carry the same ledger state.
pub open spec fn same_account(a: Account, b: Account) -> bool {
    &&& a.near_amount == b.near_amount
    &&& a.tokens@ == b.tokens@
    &&& a.tokens.entries@ == b.tokens.entries@
}

/// The account maps agree everywhere except possibly at `k`, where `post`
/// holds some record.
pub open spec fn accounts_same_except(
    pre: Map<Seq<char>, Account>,
    post: Map<Seq<char>, Account>,
    k: Seq<char>,
) -> bool {
    &&& post.dom() == pre.dom().insert(k)
    &&& forall|k2: Seq<char>| pre.contains_key(k2) && k2 != k ==> post[k2] == pre[k2]
    &&& post.contains_key(k)
}

/// What crediting an inbound deposit does: a zero amount is refused, a
/// credit whose grown footprint the rent cannot cover is refused, and
/// otherwise exactly the sender's balance of that token grows by the
/// amount.
pub open spec fn save_information_post(
    pre: Contract,
    post: Contract,
    account_id: Seq<char>,
    token_id: Seq<char>,
    amount: u128,
    r: Result<(), ExchangeError>,
) -> bool {
    if amount == 0 {
        r == Err::<(), ExchangeError>(ExchangeError::AmountMustBePositive) && post == pre
    } else {
        let had = pre.accounts@.contains_key(account_id);
        let tokens0 = if had {
            pre.accounts@[account_id].tokens@
        } else {
            Map::<Seq<char>, u128>::empty()
        };
        let near = pre.rent_of(account_id);
        let bal = balance_of(tokens0, token_id);
        let newcount = if tokens0.contains_key(token_id) {
            tokens0.len() as int
        } else {
            tokens0.len() + 1int
        };
        if storage_cost_of(newcount) > near {
            r == Err::<(), ExchangeError>(ExchangeError::InsufficientStorage) && post == pre
        } else {
            &&& r == Ok::<(), ExchangeError>(())
            &&& accounts_same_except(pre.accounts@, post.accounts@, account_id)
            &&& post.accounts@[account_id].near_amount == near
            &&& post.accounts@[account_id].tokens@ == tokens0.insert(
                token_id,
                (bal + amount) as u128,
            )
            &&& post.pools@ == pre.pools@
            &&& post.whitelisted_tokens@ == pre.whitelisted_tokens@
        }
    }
}

impl Contract {
    /// Sound tables, sound account records, and sound pools.
    pub open spec fn wf(&self) -> bool {
        &&& self.accounts.wf()
        &&& forall|k: Seq<char>|
            #[trigger] self.accounts@.contains_key(k) ==> self.accounts@[k].wf()
        &&& forall|i: int| 0 <= i < self.pools@.len() ==> (#[trigger] self.pools@[i]).wf()
    }

    /// Whether `token` is on the lost-and-found allow-list.
    pub open spec fn whitelisted(&self, token: Seq<char>) -> bool {
        exists|i: int|
            0 <= i < self.whitelisted_tokens@.len() && self.whitelisted_tokens@[i]@ == token
    }

    /// The rent deposit held for `account_id`, zero when unregistered.
    pub open spec fn rent_of(&self, account_id: Seq<char>) -> u128 {
        if self.accounts@.contains_key(account_id) {
            self.accounts@[account_id].near_amount
        } else {
            0
        }
    }

    /// The ledger balance of `token_id` for `account_id`, zero when either
    /// is unregistered.
    pub open spec fn deposit_spec(&self, account_id: Seq<char>, token_id: Seq<char>) -> u128 {
        if self.accounts@.contains_key(account_id) {
            balance_of(self.accounts@[account_id].tokens@, token_id)
        } else {
            0
        }
    }

    /// A fresh exchange with no accounts, no pools and an empty
    /// allow-list.
    pub fn new(owner_id: String, exchange_fee: u32, referral_fee: u32) -> (r: Contract)
        ensures
            r.wf(),
            r.owner_id@ == owner_id@,
            r.accounts@ == Map::<Seq<char>, Account>::empty(),
            r.whitelisted_tokens@.len() == 0,
            r.pools@.len() == 0,
            r.exchange_fee == exchange_fee,
            r.referral_fee == referral_fee,
    {
        Contract {
            owner_id,
            accounts: Table::new(),
            whitelisted_tokens: Vec::new(),
            exchange_fee,
            referral_fee,
            pools: Vec::new(),
        }
    }

    /// Whether `token` may be parked in lost-and-found.
    pub fn is_whitelisted(&self, token: &String) -> (r: bool)
        ensures
            r == self.whitelisted(token@),
    {
        let n = self.whitelisted_tokens.len();
        let mut i: usize = 0;
        while i < n
            invariant
                n == self.whitelisted_tokens@.len(),
                i <= n,
                forall|j: int| 0 <= j < i ==> self.whitelisted_tokens@[j]@ != token@,
            decreases n - i,
        {
            if self.whitelisted_tokens[i] == *token {
                return true;
            }
            i = i + 1;
        }
        false
    }

    /// Adds tokens to the lost-and-found allow-list.
    pub fn extend_whitelisted_tokens(&mut self, tokens: Vec<String>)
        requires
            old(self).wf(),
        ensures
            final(self).wf(),
            final(self).accounts@ == old(self).accounts@,
            final(self).pools@ == old(self).pools@,
            final(self).owner_id@ == old(self).owner_id@,
            forall|t: Seq<char>|
                #[trigger] final(self).whitelisted(t) <==> (old(self).whitelisted(t) || exists|
                    i: int,
                |
                    0 <= i < tokens@.len() && tokens@[i]@ == t),
    {
        let ghost base = self.whitelisted_tokens@;
        let n = tokens.len();
        let mut i: usize = 0;
        while i < n
            invariant
                n == tokens@.len(),
                i <= n,
                self.accounts == old(self).accounts,
                self.pools == old(self).pools,
                self.owner_id == old(self).owner_id,
                base == old(self).whitelisted_tokens@,
                self.whitelisted_tokens@ == base + tokens@.subrange(0, i as int),
            decreases n - i,
        {
            let t = tokens[i].clone();
            proof {
                assert((base + tokens@.subrange(0, i as int)).push(tokens@[i as int]) =~= base
                    + tokens@.subrange(0, i + 1));
            }
            self.whitelisted_tokens.push(t);
            i = i + 1;
        }
        proof {
            assert(self.whitelisted_tokens@ == base + tokens@.subrange(0, n as int));
            assert(tokens@.subrange(0, n as int) =~= tokens@);
            assert forall|t: Seq<char>| #[trigger]
                final(self).whitelisted(t) <==> (old(self).whitelisted(t) || exists|i: int|
                    0 <= i < tokens@.len() && tokens@[i]@ == t) by {
                if final(self).whitelisted(t) {
                    let i = choose|i: int|
                        0 <= i < self.whitelisted_tokens@.len()
                            && self.whitelisted_tokens@[i]@ == t;
                    if i < base.len() {
                        assert(old(self).whitelisted_tokens@[i]@ == t);
                    } else {
                        assert(tokens@[i - base.len()]@ == t);
                    }
                }
                if old(self).whitelisted(t) {
                    let i = choose|i: int|
                        0 <= i < old(self).whitelisted_tokens@.len() && old(self).whitelisted_tokens@[i]@ == t;
                    assert(self.whitelisted_tokens@[i]@ == t);
                }
                if exists|i: int| 0 <= i < tokens@.len() && tokens@[i]@ == t {
                    let i = choose|i: int| 0 <= i < tokens@.len() && tokens@[i]@ == t;
                    assert(self.whitelisted_tokens@[base.len() + i]@ == t);
                }
            }
        }
    }

    /// A copy of the record stored for `account_id`, if any.
    pub fn internal_get_account(&self, account_id: &String) -> (r: Option<Account>)
        requires
            self.wf(),
        ensures
            match r {
                Some(a) => self.accounts@.contains_key(account_id@) && same_account(
                    a,
                    self.accounts@[account_id@],
                ) && a.wf(),
                None => !self.accounts@.contains_key(account_id@),
            },
    {
        match self.accounts.get(account_id) {
            Some(a) => Some(a.duplicate()),
            None => None,
        }
    }

    /// The record stored for `account_id`, or a refusal when there is
    /// none.
    pub fn internal_unwrap_account(&self, account_id: &String) -> (r: Result<
        Account,
        ExchangeError,
    >)
        requires
            self.wf(),
        ensures
            match r {
                Ok(a) => self.accounts@.contains_key(account_id@) && same_account(
                    a,
                    self.accounts@[account_id@],
                ) && a.wf(),
                Err(e) => !self.accounts@.contains_key(account_id@) && e
                    == ExchangeError::AccountNotRegistered,
            },
    {
        match self.internal_get_account(account_id) {
            Some(a) => Ok(a),
            None => Err(ExchangeError::AccountNotRegistered),
        }
    }

    /// The record stored for `account_id`, or a fresh empty one.
    pub fn internal_unwrap_or_default_account(&self, account_id: &String) -> (r: Account)
        requires
            self.wf(),
        ensures
            r.wf(),
            self.accounts@.contains_key(account_id@) ==> same_account(
                r,
                self.accounts@[account_id@],
            ),
            !self.accounts@.contains_key(account_id@) ==> r.near_amount == 0 && r.tokens@
                == Map::<Seq<char>, u128>::empty() && r.tokens.entries@.len() == 0,
    {
        match self.internal_get_account(account_id) {
            Some(a) => a,
            None => Account::new(account_id),
        }
    }

    /// Stores `account` under `account_id` after checking that its rent
    /// still covers its footprint; a record that no longer pays its way is
    /// refused and nothing changes.
    pub fn internal_save_account(&mut self, account_id: &String, account: Account) -> (r: Result<
        (),
        ExchangeError,
    >)
        requires
            old(self).wf(),
            account.wf(),
        ensures
            final(self).wf(),
            account.storage_cost() > account.near_amount ==> r == Err::<(), ExchangeError>(
                ExchangeError::InsufficientStorage,
            ) && *final(self) == *old(self),
            account.storage_cost() <= account.near_amount ==> r == Ok::<(), ExchangeError>(())
                && final(self).accounts@ == old(self).accounts@.insert(account_id@, account)
                && final(self).pools@ == old(self).pools@ && final(self).whitelisted_tokens@ == old(self).whitelisted_tokens@ && final(self).owner_id@ == old(self).owner_id@,
    {
        match account.assert_storage_usage() {
            Ok(_) => {},
            Err(e) => {
                return Err(e);
            },
        }
        self.accounts.insert(account_id.clone(), account);
        Ok(())
    }

    /// Associates a rent payment with `account_id`, creating the record on
    /// first contact; refused when even the grown deposit cannot cover the
    /// record's footprint.
    pub fn internal_register_account(&mut self, account_id: &String, amount: u128) -> (r: Result<
        (),
        ExchangeError,
    >)
        requires
            old(self).wf(),
            old(self).rent_of(account_id@) + amount <= u128::MAX,
        ensures
            final(self).wf(),
            ({
                let newrent = old(self).rent_of(account_id@) + amount;
                let cost = if old(self).accounts@.contains_key(account_id@) {
                    old(self).accounts@[account_id@].storage_cost()
                } else {
                    storage_cost_of(0)
                };
                if cost > newrent {
                    r == Err::<(), ExchangeError>(ExchangeError::InsufficientStorage) && *final(self) == *old(self)
                } else {
                    &&& r == Ok::<(), ExchangeError>(())
                    &&& accounts_same_except(old(self).accounts@, final(self).accounts@, account_id@)
                    &&& final(self).accounts@[account_id@].near_amount == newrent
                    &&& final(self).accounts@[account_id@].tokens@ == (if old(self).accounts@.contains_key(account_id@) {
                        old(self).accounts@[account_id@].tokens@
                    } else {
                        Map::<Seq<char>, u128>::empty()
                    })
                    &&& final(self).pools@ == old(self).pools@
                    &&& final(self).whitelisted_tokens@ == old(self).whitelisted_tokens@
                }
            }),
    {
        let mut account = self.internal_unwrap_or_default_account(account_id);
        account.near_amount = account.near_amount + amount;
        let r = self.internal_save_account(account_id, account);
        match r {
            Ok(_) => Ok(()),
            Err(e) => Err(e),
        }
    }

    /// Returns part of an account's free rent to its owner: `amount`, or
    /// everything not locked by storage when `amount` is zero. Refused
    /// when nothing is free or more than the free margin is asked for.
    pub fn internal_storage_withdraw(&mut self, account_id: &String, amount: u128) -> (r: Result<
        u128,
        ExchangeError,
    >)
        requires
            old(self).wf(),
        ensures
            final(self).wf(),
            !old(self).accounts@.contains_key(account_id@) ==> r == Err::<u128, ExchangeError>(
                ExchangeError::AccountNotRegistered,
            ) && *final(self) == *old(self),
            old(self).accounts@.contains_key(account_id@) ==> ({
                let acct = old(self).accounts@[account_id@];
                let available = if acct.near_amount > acct.storage_cost() {
                    acct.near_amount - acct.storage_cost()
                } else {
                    0int
                };
                let w = if amount == 0 {
                    available
                } else {
                    amount as int
                };
                if available == 0 || w > available {
                    r == Err::<u128, ExchangeError>(ExchangeError::InsufficientStorage) && *final(self) == *old(self)
                } else {
                    &&& r == Ok::<u128, ExchangeError>(w as u128)
                    &&& accounts_same_except(old(self).accounts@, final(self).accounts@, account_id@)
                    &&& final(self).accounts@[account_id@].near_amount == acct.near_amount - w
                    &&& final(self).accounts@[account_id@].tokens@ == acct.tokens@
                    &&& final(self).pools@ == old(self).pools@
                    &&& final(self).whitelisted_tokens@ == old(self).whitelisted_tokens@
                }
            }),
    {
        let mut account = match self.internal_unwrap_account(account_id) {
            Ok(a) => a,
            Err(e) => {
                return Err(e);
            },
        };
        let available = account.storage_available();
        if available == 0 {
            return Err(ExchangeError::InsufficientStorage);
        }
        let withdraw_amount = if amount == 0 {
            available
        } else {
            amount
        };
        if withdraw_amount > available {
            return Err(ExchangeError::InsufficientStorage);
        }
        account.near_amount = account.near_amount - withdraw_amount;
        match self.internal_save_account(account_id, account) {
            Ok(_) => Ok(withdraw_amount),
            Err(_) => {
                proof {
                    assert(false);
                }
                Err(ExchangeError::InsufficientStorage)
            },
        }
    }

    /// Registers the listed tokens on the caller's account with zero
    /// balances, then re-checks that the account's rent covers its grown
    /// footprint; on failure nothing changes.
    pub fn register_tokens(&mut self, sender_id: &String, token_ids: &Vec<String>) -> (r: Result<
        (),
        ExchangeError,
    >)
        requires
            old(self).wf(),
            old(self).accounts@.contains_key(sender_id@) ==> old(self).accounts@[sender_id@].tokens@.len() + token_ids@.len() <= u32::MAX,
        ensures
            final(self).wf(),
            !old(self).accounts@.contains_key(sender_id@) ==> r == Err::<(), ExchangeError>(
                ExchangeError::AccountNotRegistered,
            ) && *final(self) == *old(self),
            old(self).accounts@.contains_key(sender_id@) ==> ({
                let acct = old(self).accounts@[sender_id@];
                let newtokens = with_registered(
                    acct.tokens@,
                    token_ids@.map_values(|t: String| t@),
                );
                if storage_cost_of(newtokens.len() as int) > acct.near_amount {
                    r == Err::<(), ExchangeError>(ExchangeError::InsufficientStorage) && *final(self) == *old(self)
                } else {
                    &&& r == Ok::<(), ExchangeError>(())
                    &&& accounts_same_except(old(self).accounts@, final(self).accounts@, sender_id@)
                    &&& final(self).accounts@[sender_id@].near_amount == acct.near_amount
                    &&& final(self).accounts@[sender_id@].tokens@ == newtokens
                    &&& final(self).pools@ == old(self).pools@
                    &&& final(self).whitelisted_tokens@ == old(self).whitelisted_tokens@
                }
            }),
    {
        let mut account = match self.internal_unwrap_account(sender_id) {
            Ok(a) => a,
            Err(e) => {
                return Err(e);
            },
        };
        proof {
            account.tokens.lemma_view_len();
            old(self).accounts@[sender_id@].tokens.lemma_view_len();
        }
        account.register(token_ids);
        proof {
            account.tokens.lemma_view_len();
        }
        match self.internal_save_account(sender_id, account) {
            Ok(_) => Ok(()),
            Err(e) => Err(e),
        }
    }

    /// Unregisters the listed tokens from the caller's account; refused
    /// whole — nothing changes — when any of them still holds a balance.
    pub fn unregister_tokens(&mut self, sender_id: &String, token_ids: &Vec<String>) -> (r: Result<
        (),
        ExchangeError,
    >)
        requires
            old(self).wf(),
        ensures
            final(self).wf(),
            !old(self).accounts@.contains_key(sender_id@) ==> r == Err::<(), ExchangeError>(
                ExchangeError::AccountNotRegistered,
            ) && *final(self) == *old(self),
            old(self).accounts@.contains_key(sender_id@) ==> ({
                let acct = old(self).accounts@[sender_id@];
                let views = token_ids@.map_values(|t: String| t@);
                if unregister_fails(acct.tokens@, views) {
                    r == Err::<(), ExchangeError>(ExchangeError::NonZeroTokenBalance) && *final(self) == *old(self)
                } else {
                    let newtokens = with_unregistered(acct.tokens@, views);
                    if storage_cost_of(newtokens.len() as int) > acct.near_amount {
                        r == Err::<(), ExchangeError>(ExchangeError::InsufficientStorage)
                            && *final(self) == *old(self)
                    } else {
                        &&& r == Ok::<(), ExchangeError>(())
                        &&& accounts_same_except(
                            old(self).accounts@,
                            final(self).accounts@,
                            sender_id@,
                        )
                        &&& final(self).accounts@[sender_id@].near_amount == acct.near_amount
                        &&& final(self).accounts@[sender_id@].tokens@ == newtokens
                        &&& final(self).pools@ == old(self).pools@
                        &&& final(self).whitelisted_tokens@ == old(self).whitelisted_tokens@
                    }
                }
            }),
    {
        let mut account = match self.internal_unwrap_account(sender_id) {
            Ok(a) => a,
            Err(e) => {
                return Err(e);
            },
        };
        let ghost views = token_ids@.map_values(|t: String| t@);
        let ghost basemap = account.tokens@;
        let n = token_ids.len();
        let mut i: usize = 0;
        while i < n
            invariant
                n == token_ids@.len(),
                i <= n,
                views == token_ids@.map_values(|t: String| t@),
                basemap == old(self).accounts@[sender_id@].tokens@,
                old(self).accounts@.contains_key(sender_id@),
                old(self).wf(),
                self == old(self),
                account.wf(),
                account.near_amount == old(self).accounts@[sender_id@].near_amount,
                account.tokens@ == with_unregistered(basemap, views.subrange(0, i as int)),
                !unregister_fails(basemap, views.subrange(0, i as int)),
                account.tokens.entries@.len() <= u32::MAX,
            decreases n - i,
        {
            let ghost pre = views.subrange(0, i as int);
            let ghost nxt = views.subrange(0, i + 1);
            proof {
                assert(nxt.drop_last() =~= pre);
                assert(nxt.last() == views[i as int]);
            }
            match account.unregister(&token_ids[i]) {
                Ok(_) => {
                    proof {
                        if !account.tokens@.contains_key(views[i as int]) {
                        }
                        assert(account.tokens@ =~= with_unregistered(basemap, nxt));
                    }
                },
                Err(e) => {
                    proof {
                        lemma_unregister_fails_mono(basemap, views, i + 1);
                    }
                    return Err(e);
                },
            }
            i = i + 1;
        }
        proof {
            assert(views.subrange(0, n as int) =~= views);
            account.tokens.lemma_view_len();
        }
        match self.internal_save_account(sender_id, account) {
            Ok(_) => Ok(()),
            Err(e) => Err(e),
        }
    }

    /// The synchronous phase of a withdrawal: resolves the amount (zero
    /// means the full balance), debits the ledger, optionally unregisters
    /// the token, and commits to the outbound transfer returned. Any
    /// refusal leaves everything unchanged.
    pub fn withdraw(
        &mut self,
        sender_id: &String,
        token_id: &String,
        amount: u128,
        unregister: Option<bool>,
    ) -> (r: Result<WithdrawRequest, ExchangeError>)
        requires
            old(self).wf(),
        ensures
            final(self).wf(),
            !old(self).accounts@.contains_key(sender_id@) ==> r is Err && r->Err_0
                == ExchangeError::AccountNotRegistered && *final(self) == *old(self),
            old(self).accounts@.contains_key(sender_id@) ==> ({
                let acct = old(self).accounts@[sender_id@];
                let has_token = acct.tokens@.contains_key(token_id@);
                let bal = balance_of(acct.tokens@, token_id@);
                let resolved = if amount == 0 {
                    bal
                } else {
                    amount
                };
                if amount == 0 && !has_token {
                    r is Err && r->Err_0 == ExchangeError::TokenNotRegistered && *final(self)
                        == *old(self)
                } else if resolved == 0 {
                    r is Err && r->Err_0 == ExchangeError::IllegalWithdrawAmount && *final(self)
                        == *old(self)
                } else if !has_token {
                    r is Err && r->Err_0 == ExchangeError::TokenNotRegistered && *final(self)
                        == *old(self)
                } else if bal < resolved {
                    r is Err && r->Err_0 == ExchangeError::NotEnoughFunds && *final(self) == *old(self)
                } else if unregister == Some(true) && bal != resolved {
                    r is Err && r->Err_0 == ExchangeError::NonZeroTokenBalance && *final(self)
                        == *old(self)
                } else {
                    let newtokens = if unregister == Some(true) {
                        acct.tokens@.remove(token_id@)
                    } else {
                        acct.tokens@.insert(token_id@, (bal - resolved) as u128)
                    };
                    let newcount = if unregister == Some(true) {
                        acct.tokens@.len() - 1
                    } else {
                        acct.tokens@.len() as int
                    };
                    if storage_cost_of(newcount) > acct.near_amount {
                        r is Err && r->Err_0 == ExchangeError::InsufficientStorage && *final(self)
                            == *old(self)
                    } else {
                        &&& r is Ok
                        &&& r->Ok_0.sender_id@ == sender_id@
                        &&& r->Ok_0.token_id@ == token_id@
                        &&& r->Ok_0.amount == resolved
                        &&& accounts_same_except(
                            old(self).accounts@,
                            final(self).accounts@,
                            sender_id@,
                        )
                        &&& final(self).accounts@[sender_id@].near_amount == acct.near_amount
                        &&& final(self).accounts@[sender_id@].tokens@ == newtokens
                        &&& final(self).pools@ == old(self).pools@
                        &&& final(self).whitelisted_tokens@ == old(self).whitelisted_tokens@
                    }
                }
            }),
    {
        let mut account = match self.internal_unwrap_account(sender_id) {
            Ok(a) => a,
            Err(e) => {
                return Err(e);
            },
        };
        let resolved = if amount == 0 {
            match account.get_balance(token_id) {
                Some(b) => b,
                None => {
                    return Err(ExchangeError::TokenNotRegistered);
                },
            }
        } else {
            amount
        };
        if resolved == 0 {
            return Err(ExchangeError::IllegalWithdrawAmount);
        }
        match account.withdraw(token_id, resolved) {
            Ok(_) => {},
            Err(e) => {
                return Err(e);
            },
        }
        if let Some(true) = unregister {
            match account.unregister(token_id) {
                Ok(_) => {},
                Err(e) => {
                    return Err(e);
                },
            }
        }
        proof {
            account.tokens.lemma_view_len();
            old(self).accounts@[sender_id@].tokens.lemma_view_len();
        }
        match self.internal_save_account(sender_id, account) {
            Ok(_) => {},
            Err(e) => {
                return Err(e);
            },
        }
        Ok(self.internal_send_tokens(sender_id, token_id, resolved))
    }

    /// The outbound transfer a committed withdrawal issues: the host must
    /// perform it and deliver its outcome to the settlement callback.
    pub fn internal_send_tokens(&self, sender_id: &String, token_id: &String, amount: u128) -> (r:
        WithdrawRequest)
        ensures
            r.sender_id@ == sender_id@,
            r.token_id@ == token_id@,
            r.amount == amount,
    {
        WithdrawRequest {
            sender_id: sender_id.clone(),
            token_id: token_id.clone(),
            amount,
        }
    }

    /// Parks funds on the operator's ledger, without a rent check; only
    /// allow-listed tokens may be absorbed this way — any other token is a
    /// fatal refusal, never a silent credit.
    pub fn internal_lostfound(&mut self, token_id: &String, amount: u128) -> (r: Result<
        (),
        ExchangeError,
    >)
        requires
            old(self).wf(),
            old(self).whitelisted(token_id@) ==> ({
                let bal = old(self).deposit_spec(old(self).owner_id@, token_id@);
                &&& bal + amount <= u128::MAX
                &&& (old(self).accounts@.contains_key(old(self).owner_id@) ==> old(self).accounts@[old(self).owner_id@].tokens@.len() + 1 <= u32::MAX)
            }),
        ensures
            final(self).wf(),
            !old(self).whitelisted(token_id@) ==> r == Err::<(), ExchangeError>(
                ExchangeError::NonWhitelistedLostFound,
            ) && *final(self) == *old(self),
            old(self).whitelisted(token_id@) ==> ({
                let owner = old(self).owner_id@;
                let bal = old(self).deposit_spec(owner, token_id@);
                &&& r == Ok::<(), ExchangeError>(())
                &&& accounts_same_except(old(self).accounts@, final(self).accounts@, owner)
                &&& final(self).accounts@[owner].near_amount == old(self).rent_of(owner)
                &&& final(self).accounts@[owner].tokens@ == (if old(self).accounts@.contains_key(owner) {
                    old(self).accounts@[owner].tokens@
                } else {
                    Map::<Seq<char>, u128>::empty()
                }).insert(token_id@, (bal + amount) as u128)
                &&& final(self).pools@ == old(self).pools@
                &&& final(self).whitelisted_tokens@ == old(self).whitelisted_tokens@
                &&& final(self).owner_id@ == old(self).owner_id@
            }),
    {
        if !self.is_whitelisted(token_id) {
            return Err(ExchangeError::NonWhitelistedLostFound);
        }
        let owner = self.owner_id.clone();
        let mut lostfound = self.internal_unwrap_or_default_account(&owner);
        proof {
            lostfound.tokens.lemma_view_len();
            if old(self).accounts@.contains_key(old(self).owner_id@) {
                old(self).accounts@[old(self).owner_id@].tokens.lemma_view_len();
            }
        }
        lostfound.deposit(token_id, amount);
        self.accounts.insert(owner, lostfound);
        Ok(())
    }

    /// The settlement continuation: runs once the external transfer's
    /// outcome is known. Exactly one result must be delivered. On success
    /// the earlier debit stands; on failure the amount is restored to the
    /// account if its rent still covers the entry, and otherwise parked in
    /// lost-and-found — so the debited amount ends in exactly one place.
    pub fn exchange_callback_post_withdraw(
        &mut self,
        token_id: &String,
        sender_id: &String,
        amount: u128,
        promise_results: Vec<TransferResult>,
    ) -> (r: Result<(), ExchangeError>)
        requires
            old(self).wf(),
            old(self).accounts@.contains_key(sender_id@) ==> ({
                let acct = old(self).accounts@[sender_id@];
                &&& balance_of(acct.tokens@, token_id@) + amount <= u128::MAX
                &&& acct.tokens@.len() + 1 <= u32::MAX
            }),
            old(self).whitelisted(token_id@) ==> ({
                let bal = old(self).deposit_spec(old(self).owner_id@, token_id@);
                &&& bal + amount <= u128::MAX
                &&& (old(self).accounts@.contains_key(old(self).owner_id@) ==> old(self).accounts@[old(self).owner_id@].tokens@.len() + 1 <= u32::MAX)
            }),
        ensures
            final(self).wf(),
            promise_results@.len() != 1 ==> r == Err::<(), ExchangeError>(
                ExchangeError::CallbackArityViolation,
            ) && *final(self) == *old(self),
            promise_results@.len() == 1 && promise_results@[0] == TransferResult::Successful ==> r
                == Ok::<(), ExchangeError>(()) && *final(self) == *old(self),
            promise_results@.len() == 1 && promise_results@[0] == TransferResult::Failed ==> ({
                let restored = old(self).accounts@.contains_key(sender_id@) && ({
                    let acct = old(self).accounts@[sender_id@];
                    acct.tokens@.contains_key(token_id@) || storage_cost_of(
                        acct.tokens@.len() + 1int,
                    ) <= acct.near_amount
                });
                if restored {
                    let acct = old(self).accounts@[sender_id@];
                    let bal = balance_of(acct.tokens@, token_id@);
                    &&& r == Ok::<(), ExchangeError>(())
                    &&& accounts_same_except(
                        old(self).accounts@,
                        final(self).accounts@,
                        sender_id@,
                    )
                    &&& final(self).accounts@[sender_id@].near_amount == acct.near_amount
                    &&& final(self).accounts@[sender_id@].tokens@ == acct.tokens@.insert(
                        token_id@,
                        (bal + amount) as u128,
                    )
                    &&& final(self).pools@ == old(self).pools@
                    &&& final(self).whitelisted_tokens@ == old(self).whitelisted_tokens@
                } else if old(self).whitelisted(token_id@) {
                    let owner = old(self).owner_id@;
                    let bal = old(self).deposit_spec(owner, token_id@);
                    &&& r == Ok::<(), ExchangeError>(())
                    &&& accounts_same_except(old(self).accounts@, final(self).accounts@, owner)
                    &&& final(self).accounts@[owner].near_amount == old(self).rent_of(owner)
                    &&& final(self).accounts@[owner].tokens@ == (if old(self).accounts@.contains_key(owner) {
                        old(self).accounts@[owner].tokens@
                    } else {
                        Map::<Seq<char>, u128>::empty()
                    }).insert(token_id@, (bal + amount) as u128)
                    &&& final(self).pools@ == old(self).pools@
                    &&& final(self).whitelisted_tokens@ == old(self).whitelisted_tokens@
                } else {
                    r == Err::<(), ExchangeError>(ExchangeError::NonWhitelistedLostFound)
                        && *final(self) == *old(self)
                }
            }),
    {
        if promise_results.len() != 1 {
            return Err(ExchangeError::CallbackArityViolation);
        }
        match promise_results[0] {
            TransferResult::Successful => Ok(()),
            TransferResult::Failed => {
                match self.internal_get_account(sender_id) {
                    Some(mut account) => {
                        proof {
                            account.tokens.lemma_view_len();
                            old(self).accounts@[sender_id@].tokens.lemma_view_len();
                        }
                        if account.deposit_with_storage_check(token_id, amount) {
                            self.accounts.insert(sender_id.clone(), account);
                            Ok(())
                        } else {
                            self.internal_lostfound(token_id, amount)
                        }
                    },
                    None => self.internal_lostfound(token_id, amount),
                }
            },
        }
    }

    /// An inbound deposit notification from the external token service:
    /// credits the sender's ledger for the calling token. The memo must be
    /// empty; the returned value is the unused portion, always zero.
    pub fn ft_on_transfer(
        &mut self,
        sender_id: &String,
        token_id: &String,
        amount: u128,
        msg: &String,
    ) -> (r: Result<u128, ExchangeError>)
        requires
            old(self).wf(),
            msg@.len() == 0,
            old(self).deposit_spec(sender_id@, token_id@) + amount <= u128::MAX,
            old(self).accounts@.contains_key(sender_id@) ==> old(self).accounts@[sender_id@].tokens@.len() + 1 <= u32::MAX,
        ensures
            final(self).wf(),
            save_information_post(*old(self), *final(self), sender_id@, token_id@, amount, ({
                match r {
                    Ok(_) => Ok::<(), ExchangeError>(()),
                    Err(e) => Err::<(), ExchangeError>(e),
                }
            })),
            r is Ok ==> r->Ok_0 == 0,
    {
        match self.internal_save_information_to_contract(sender_id, token_id, amount) {
            Ok(_) => Ok(0),
            Err(e) => Err(e),
        }
    }

    /// Credits an inbound deposit to a principal's ledger, creating the
    /// record or the token entry as needed, and re-checks the rent; on
    /// failure nothing changes.
    pub fn internal_save_information_to_contract(
        &mut self,
        account_id: &String,
        token_id: &String,
        amount: u128,
    ) -> (r: Result<(), ExchangeError>)
        requires
            old(self).wf(),
            old(self).deposit_spec(account_id@, token_id@) + amount <= u128::MAX,
            old(self).accounts@.contains_key(account_id@) ==> old(self).accounts@[account_id@].tokens@.len() + 1 <= u32::MAX,
        ensures
            final(self).wf(),
            save_information_post(*old(self), *final(self), account_id@, token_id@, amount, r),
    {
        let mut account = self.internal_unwrap_or_default_account(account_id);
        if amount == 0 {
            return Err(ExchangeError::AmountMustBePositive);
        }
        proof {
            account.tokens.lemma_view_len();
            if old(self).accounts@.contains_key(account_id@) {
                old(self).accounts@[account_id@].tokens.lemma_view_len();
            }
        }
        account.deposit(token_id, amount);
        proof {
            account.tokens.lemma_view_len();
        }
        match self.internal_save_account(account_id, account) {
            Ok(_) => Ok(()),
            Err(e) => Err(e),
        }
    }

    /// Appends a pool to the arena after registering the operator's own
    /// zero-share entry, so every pool has at least one share holder. The
    /// returned index is the pool's permanent identifier.
    pub fn internal_add_pool(&mut self, pool: Pool) -> (r: Result<usize, ExchangeError>)
        requires
            old(self).wf(),
            pool.wf(),
            !pool.as_simple().shares@.contains_key(old(self).owner_id@),
        ensures
            final(self).wf(),
            r == Ok::<usize, ExchangeError>(old(self).pools@.len() as usize),
            final(self).pools@.len() == old(self).pools@.len() + 1,
            forall|i: int|
                0 <= i < old(self).pools@.len() ==> final(self).pools@[i] == old(self).pools@[i],
            ({
                let last = final(self).pools@.last().as_simple();
                &&& last.token_account_ids@ == pool.as_simple().token_account_ids@
                &&& last.amounts@ == pool.as_simple().amounts@
                &&& last.volumes@ == pool.as_simple().volumes@
                &&& last.total_fee == pool.as_simple().total_fee
                &&& last.shares@ == pool.as_simple().shares@.insert(old(self).owner_id@, 0u128)
                &&& last.shares_total_supply == pool.as_simple().shares_total_supply
            }),
            final(self).accounts@ == old(self).accounts@,
            final(self).whitelisted_tokens@ == old(self).whitelisted_tokens@,
            final(self).owner_id@ == old(self).owner_id@,
    {
        let mut pool = pool;
        let owner = self.owner_id.clone();
        match pool.share_register(&owner) {
            Ok(_) => {},
            Err(_) => {
                proof {
                    assert(false);
                }
                return Err(ExchangeError::AlreadyRegistered);
            },
        }
        let id = self.pools.len();
        self.pools.push(pool);
        Ok(id)
    }

    /// Creates a constant-product pool over a pair of tokens and appends
    /// it to the arena, returning its permanent index.
    pub fn add_simple_pool(&mut self, tokens: Vec<String>, fee: u32) -> (r: Result<
        usize,
        ExchangeError,
    >)
        requires
            old(self).wf(),
        ensures
            final(self).wf(),
            !(forall|i: int, j: int| 0 <= i < j < tokens@.len() ==> tokens@[i]@ != tokens@[j]@)
                ==> r == Err::<usize, ExchangeError>(ExchangeError::DuplicateTokens) && *final(self) == *old(self),
            (forall|i: int, j: int| 0 <= i < j < tokens@.len() ==> tokens@[i]@ != tokens@[j]@)
                ==> ({
                if fee >= FEE_DIVISOR {
                    r == Err::<usize, ExchangeError>(ExchangeError::FeeTooLarge) && *final(self)
                        == *old(self)
                } else if tokens@.len() != 2 {
                    r == Err::<usize, ExchangeError>(ExchangeError::WrongTokenCount) && *final(self) == *old(self)
                } else {
                    &&& r == Ok::<usize, ExchangeError>(old(self).pools@.len() as usize)
                    &&& final(self).pools@.len() == old(self).pools@.len() + 1
                    &&& forall|i: int|
                        0 <= i < old(self).pools@.len() ==> final(self).pools@[i] == old(self).pools@[i]
                    &&& ({
                        let last = final(self).pools@.last().as_simple();
                        &&& last.token_account_ids@ == tokens@
                        &&& last.amounts@ == seq![0u128, 0u128]
                        &&& last.total_fee == fee
                        &&& last.shares@ == Map::<Seq<char>, u128>::empty().insert(
                            old(self).owner_id@,
                            0u128,
                        )
                        &&& last.shares_total_supply == 0
                    })
                    &&& final(self).accounts@ == old(self).accounts@
                    &&& final(self).whitelisted_tokens@ == old(self).whitelisted_tokens@
                }
            }),
    {
        match check_token_duplicates(&tokens) {
            Ok(_) => {},
            Err(e) => {
                return Err(e);
            },
        }
        let pool = match SimplePool::new(tokens, fee, 0, 0) {
            Ok(p) => p,
            Err(e) => {
                return Err(e);
            },
        };
        self.internal_add_pool(Pool::SimplePool(pool))
    }

    /// Adds liquidity to a pool and debits the caller's ledger by exactly
    /// what the pool consumed — never by what was requested, since the
    /// pool caps a lopsided deposit to its own ratio. Any refusal leaves
    /// everything unchanged.
    #[verifier::loop_isolation(false)]
    pub fn add_liquidity(
        &mut self,
        sender_id: &String,
        pool_id: usize,
        amounts: Vec<u128>,
        min_amounts: Option<Vec<u128>>,
    ) -> (r: Result<(), ExchangeError>)
        requires
            old(self).wf(),
            pool_id < old(self).pools@.len() ==> add_liquidity_req(
                old(self).pools@[pool_id as int].as_simple(),
                sender_id@,
                amounts@,
            ),
        ensures
            final(self).wf(),
            pool_id >= old(self).pools@.len() ==> r == Err::<(), ExchangeError>(
                ExchangeError::NoPool,
            ) && *final(self) == *old(self),
            pool_id < old(self).pools@.len() ==> ({
                let pool = old(self).pools@[pool_id as int].as_simple();
                let total = pool.shares_total_supply as int;
                let res0 = pool.amounts@[0] as int;
                let res1 = pool.amounts@[1] as int;
                let fair = fair_supply(amounts@[0] as int, amounts@[1] as int, res0, res1, total);
                let act0 = if total == 0 {
                    amounts@[0] as int
                } else {
                    mul_div(res0, fair, total)
                };
                let act1 = if total == 0 {
                    amounts@[1] as int
                } else {
                    mul_div(res1, fair, total)
                };
                let minted = if total == 0 {
                    INIT_SHARES_SUPPLY as int
                } else {
                    fair
                };
                let t0 = pool.token_account_ids@[0]@;
                let t1 = pool.token_account_ids@[1]@;
                if amounts@.len() != 2 {
                    r == Err::<(), ExchangeError>(ExchangeError::WrongTokenCount) && *final(self)
                        == *old(self)
                } else if total > 0 && (amounts@[0] == 0 || amounts@[1] == 0 || act0 == 0 || act1
                    == 0) {
                    r == Err::<(), ExchangeError>(ExchangeError::ZeroAmount) && *final(self)
                        == *old(self)
                } else if min_amounts is Some && ((min_amounts->0@.len() > 0 && act0
                    < min_amounts->0@[0]) || (min_amounts->0@.len() > 1 && act1
                    < min_amounts->0@[1])) {
                    r == Err::<(), ExchangeError>(ExchangeError::MinAmountNotMet) && *final(self)
                        == *old(self)
                } else {
                    let acct_tokens = if old(self).accounts@.contains_key(sender_id@) {
                        old(self).accounts@[sender_id@].tokens@
                    } else {
                        Map::<Seq<char>, u128>::empty()
                    };
                    let bal0 = balance_of(acct_tokens, t0);
                    let bal1 = balance_of(acct_tokens, t1);
                    if !acct_tokens.contains_key(t0) {
                        r == Err::<(), ExchangeError>(ExchangeError::TokenNotRegistered)
                            && *final(self) == *old(self)
                    } else if bal0 < act0 {
                        r == Err::<(), ExchangeError>(ExchangeError::NotEnoughFunds) && *final(self) == *old(self)
                    } else if !acct_tokens.contains_key(t1) {
                        r == Err::<(), ExchangeError>(ExchangeError::TokenNotRegistered)
                            && *final(self) == *old(self)
                    } else if (if t0 == t1 {
                        (bal0 - act0) as u128 as int
                    } else {
                        bal1 as int
                    }) < act1 {
                        r == Err::<(), ExchangeError>(ExchangeError::NotEnoughFunds) && *final(self) == *old(self)
                    } else if storage_cost_of(acct_tokens.len() as int) > old(self).accounts@[sender_id@].near_amount {
                        r == Err::<(), ExchangeError>(ExchangeError::InsufficientStorage)
                            && *final(self) == *old(self)
                    } else {
                        &&& r == Ok::<(), ExchangeError>(())
                        &&& accounts_same_except(
                            old(self).accounts@,
                            final(self).accounts@,
                            sender_id@,
                        )
                        &&& final(self).accounts@[sender_id@].near_amount == old(self).accounts@[sender_id@].near_amount
                        &&& final(self).accounts@[sender_id@].tokens@ == acct_tokens.insert(
                            t0,
                            (bal0 - act0) as u128,
                        ).insert(
                            t1,
                            ((if t0 == t1 {
                                (bal0 - act0) as u128 as int
                            } else {
                                bal1 as int
                            }) - act1) as u128,
                        )
                        &&& final(self).pools@.len() == old(self).pools@.len()
                        &&& forall|i: int|
                            0 <= i < old(self).pools@.len() && i != pool_id ==> final(self).pools@[i] == old(self).pools@[i]
                        &&& ({
                            let newpool = final(self).pools@[pool_id as int].as_simple();
                            &&& newpool.amounts@ == seq![
                                (res0 + act0) as u128,
                                (res1 + act1) as u128,
                            ]
                            &&& newpool.shares@ == pool.shares@.insert(
                                sender_id@,
                                (balance_of(pool.shares@, sender_id@) + minted) as u128,
                            )
                            &&& newpool.shares_total_supply == total + minted
                            &&& newpool.token_account_ids@ == pool.token_account_ids@
                            &&& newpool.volumes@ == pool.volumes@
                            &&& newpool.total_fee == pool.total_fee
                        })
                        &&& final(self).whitelisted_tokens@ == old(self).whitelisted_tokens@
                    }
                }
            }),
    {
        if pool_id >= self.pools.len() {
            return Err(ExchangeError::NoPool);
        }
        let mut pool = self.pools[pool_id].duplicate();
        let mut amounts = amounts;
        match pool.add_liquidity(sender_id, &mut amounts) {
            Ok(_) => {},
            Err(e) => {
                return Err(e);
            },
        }
        if let Some(mins) = &min_amounts {
            let bound = if mins.len() < 2 {
                mins.len()
            } else {
                2
            };
            let mut i: usize = 0;
            while i < bound
                invariant
                    bound <= 2,
                    bound <= mins@.len(),
                    amounts@.len() == 2,
                    i <= bound,
                    min_amounts == Some(*mins),
                    forall|j: int| 0 <= j < i ==> amounts@[j] >= mins@[j],
                decreases bound - i,
            {
                if amounts[i] < mins[i] {
                    return Err(ExchangeError::MinAmountNotMet);
                }
                i = i + 1;
            }
        }
        let mut deposits = self.internal_unwrap_or_default_account(sender_id);
        let tokens = pool.tokens();
        let token0 = tokens[0].clone();
        let token1 = tokens[1].clone();
        match deposits.withdraw(&token0, amounts[0]) {
            Ok(_) => {},
            Err(e) => {
                return Err(e);
            },
        }
        match deposits.withdraw(&token1, amounts[1]) {
            Ok(_) => {},
            Err(e) => {
                return Err(e);
            },
        }
        proof {
            deposits.tokens.lemma_view_len();
            if old(self).accounts@.contains_key(sender_id@) {
                old(self).accounts@[sender_id@].tokens.lemma_view_len();
            }
        }
        match self.internal_save_account(sender_id, deposits) {
            Ok(_) => {},
            Err(e) => {
                return Err(e);
            },
        }
        self.pools[pool_id] = pool;
        Ok(())
    }

    /// Burns the caller's pool shares for their slice of the reserves and
    /// credits the proceeds to the caller's ledger. Any refusal leaves
    /// everything unchanged.
    pub fn remove_liquidity(
        &mut self,
        sender_id: &String,
        pool_id: usize,
        shares: u128,
        min_amounts: Vec<u128>,
    ) -> (r: Result<(), ExchangeError>)
        requires
            old(self).wf(),
            pool_id < old(self).pools@.len() ==> remove_liquidity_req(
                old(self).pools@[pool_id as int].as_simple(),
                sender_id@,
                shares,
                min_amounts@,
            ),
            pool_id < old(self).pools@.len() ==> ({
                let pool = old(self).pools@[pool_id as int].as_simple();
                let total = pool.shares_total_supply as int;
                let a0 = mul_div(pool.amounts@[0] as int, shares as int, total);
                let a1 = mul_div(pool.amounts@[1] as int, shares as int, total);
                let t0 = pool.token_account_ids@[0]@;
                let t1 = pool.token_account_ids@[1]@;
                &&& old(self).deposit_spec(sender_id@, t0) + a0 <= u128::MAX
                &&& old(self).deposit_spec(sender_id@, t1) + a1 <= u128::MAX
                &&& (old(self).accounts@.contains_key(sender_id@) ==> old(self).accounts@[sender_id@].tokens@.len() + 2 <= u32::MAX)
            }),
        ensures
            final(self).wf(),
            pool_id >= old(self).pools@.len() ==> r == Err::<(), ExchangeError>(
                ExchangeError::NoPool,
            ) && *final(self) == *old(self),
            pool_id < old(self).pools@.len() ==> ({
                let pool = old(self).pools@[pool_id as int].as_simple();
                let total = pool.shares_total_supply as int;
                let res0 = pool.amounts@[0] as int;
                let res1 = pool.amounts@[1] as int;
                let a0 = mul_div(res0, shares as int, total);
                let a1 = mul_div(res1, shares as int, total);
                let t0 = pool.token_account_ids@[0]@;
                let t1 = pool.token_account_ids@[1]@;
                if min_amounts@.len() != 2 {
                    r == Err::<(), ExchangeError>(ExchangeError::WrongTokenCount) && *final(self)
                        == *old(self)
                } else if !pool.shares@.contains_key(sender_id@) {
                    r == Err::<(), ExchangeError>(ExchangeError::NoShares) && *final(self) == *old(self)
                } else if pool.shares@[sender_id@] < shares {
                    r == Err::<(), ExchangeError>(ExchangeError::NotEnoughShares) && *final(self)
                        == *old(self)
                } else if a0 < min_amounts@[0] || a1 < min_amounts@[1] {
                    r == Err::<(), ExchangeError>(ExchangeError::MinAmountNotMet) && *final(self)
                        == *old(self)
                } else {
                    let acct_tokens = if old(self).accounts@.contains_key(sender_id@) {
                        old(self).accounts@[sender_id@].tokens@
                    } else {
                        Map::<Seq<char>, u128>::empty()
                    };
                    let near = old(self).rent_of(sender_id@);
                    let bal0 = balance_of(acct_tokens, t0);
                    let m1 = acct_tokens.insert(t0, (bal0 + a0) as u128);
                    let bal1 = balance_of(m1, t1);
                    let m2 = m1.insert(t1, (bal1 + a1) as u128);
                    if storage_cost_of(m2.len() as int) > near {
                        r == Err::<(), ExchangeError>(ExchangeError::InsufficientStorage)
                            && *final(self) == *old(self)
                    } else {
                        &&& r == Ok::<(), ExchangeError>(())
                        &&& accounts_same_except(
                            old(self).accounts@,
                            final(self).accounts@,
                            sender_id@,
                        )
                        &&& final(self).accounts@[sender_id@].near_amount == near
                        &&& final(self).accounts@[sender_id@].tokens@ == m2
                        &&& final(self).pools@.len() == old(self).pools@.len()
                        &&& forall|i: int|
                            0 <= i < old(self).pools@.len() && i != pool_id ==> final(self).pools@[i] == old(self).pools@[i]
                        &&& ({
                            let newpool = final(self).pools@[pool_id as int].as_simple();
                            &&& newpool.amounts@ == seq![(res0 - a0) as u128, (res1 - a1) as u128]
                            &&& newpool.shares@ == pool.shares@.insert(
                                sender_id@,
                                (pool.shares@[sender_id@] - shares) as u128,
                            )
                            &&& newpool.shares_total_supply == total - shares
                            &&& newpool.token_account_ids@ == pool.token_account_ids@
                            &&& newpool.volumes@ == pool.volumes@
                            &&& newpool.total_fee == pool.total_fee
                        })
                        &&& final(self).whitelisted_tokens@ == old(self).whitelisted_tokens@
                    }
                }
            }),
    {
        if pool_id >= self.pools.len() {
            return Err(ExchangeError::NoPool);
        }
        let mut pool = self.pools[pool_id].duplicate();
        let amounts = match pool.remove_liquidity(sender_id, shares, min_amounts) {
            Ok(a) => a,
            Err(e) => {
                return Err(e);
            },
        };
        let tokens = pool.tokens();
        let token0 = tokens[0].clone();
        let token1 = tokens[1].clone();
        let mut deposits = self.internal_unwrap_or_default_account(sender_id);
        proof {
            deposits.tokens.lemma_view_len();
            if old(self).accounts@.contains_key(sender_id@) {
                old(self).accounts@[sender_id@].tokens.lemma_view_len();
            }
        }
        deposits.deposit(&token0, amounts[0]);
        proof {
            deposits.tokens.lemma_view_len();
        }
        deposits.deposit(&token1, amounts[1]);
        proof {
            deposits.tokens.lemma_view_len();
        }
        match self.internal_save_account(sender_id, deposits) {
            Ok(_) => {},
            Err(e) => {
                return Err(e);
            },
        }
        self.pools[pool_id] = pool;
        Ok(())
    }

    /// Settles the storage bill of one operation: the bytes it grew the
    /// store by, priced per byte, must be covered by the attached payment,
    /// and the rest is owed back to the caller. Shrinkage costs nothing.
    pub fn internal_check_storage(
        &self,
        prev_storage: u64,
        current_storage: u64,
        attached_deposit: u128,
    ) -> (r: Result<u128, ExchangeError>)
        ensures
            ({
                let grown = if current_storage > prev_storage {
                    current_storage - prev_storage
                } else {
                    0int
                };
                let cost = grown * STORAGE_PRICE_PER_BYTE;
                if attached_deposit < cost {
                    r == Err::<u128, ExchangeError>(ExchangeError::InsufficientStorage)
                } else {
                    r == Ok::<u128, ExchangeError>((attached_deposit - cost) as u128)
                }
            }),
    {
        let grown: u64 = if current_storage > prev_storage {
            current_storage - prev_storage
        } else {
            0
        };
        let cost: u128 = (grown as u128) * STORAGE_PRICE_PER_BYTE;
        if attached_deposit < cost {
            Err(ExchangeError::InsufficientStorage)
        } else {
            Ok(attached_deposit - cost)
        }
    }

    /// Every token balance held for `account_id`, in storage order; empty
    /// when the account is unregistered.
    pub fn get_deposits(&self, account_id: &String) -> (r: Vec<(String, u128)>)
        requires
            self.wf(),
        ensures
            !self.accounts@.contains_key(account_id@) ==> r@.len() == 0,
            self.accounts@.contains_key(account_id@) ==> ({
                let entries = self.accounts@[account_id@].tokens.entries@;
                &&& r@.len() == entries.len()
                &&& forall|i: int|
                    0 <= i < r@.len() ==> r@[i].0@ == entries[i].key@ && r@[i].1
                        == entries[i].value
            }),
    {
        let account = match self.accounts.get(account_id) {
            Some(a) => a,
            None => {
                return Vec::new();
            },
        };
        let n = account.tokens.len();
        let mut r: Vec<(String, u128)> = Vec::new();
        let mut i: usize = 0;
        while i < n
            invariant
                account.wf(),
                n == account.tokens.entries@.len(),
                i <= n,
                r@.len() == i,
                forall|j: int|
                    0 <= j < i ==> r@[j].0@ == account.tokens.entries@[j].key@ && r@[j].1
                        == account.tokens.entries@[j].value,
            decreases n - i,
        {
            let key = account.tokens.key_at(i).clone();
            let value = *account.tokens.value_at(i);
            r.push((key, value));
            i = i + 1;
        }
        r
    }

    /// The ledger balance of one token for one principal, zero when
    /// either is unknown.
    pub fn get_deposit(&self, account_id: &String, token_id: &String) -> (r: u128)
        requires
            self.wf(),
        ensures
            r == self.deposit_spec(account_id@, token_id@),
    {
        self.internal_get_deposit(account_id, token_id)
    }

    /// See [`Contract::get_deposit`].
    pub fn internal_get_deposit(&self, sender_id: &String, token_id: &String) -> (r: u128)
        requires
            self.wf(),
        ensures
            r == self.deposit_spec(sender_id@, token_id@),
    {
        match self.accounts.get(sender_id) {
            Some(a) => {
                match a.tokens.get(token_id) {
                    Some(b) => *b,
                    None => 0,
                }
            },
            None => 0,
        }
    }
}

} // verus!
