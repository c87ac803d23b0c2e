//! The failure taxonomy. Every fallible operation reports one of these and
//! leaves all state it owns unchanged, so callers can treat any `Err` as a
//! whole-operation abort.
use vstd::prelude::*;

verus! {

/// Why an exchange operation was refused.
#[derive(Clone, Copy, Debug, PartialEq, Eq, Structural)]
pub enum ExchangeError {
    /// The account's prepaid rent no longer covers its storage footprint.
    InsufficientStorage,
    /// A token entry with a nonzero balance cannot be unregistered.
    NonZeroTokenBalance,
    /// The token has no entry in the account's ledger.
    TokenNotRegistered,
    /// The resolved withdrawal amount was zero.
    IllegalWithdrawAmount,
    /// The balance is smaller than the requested debit.
    NotEnoughFunds,
    /// A liquidity amount of zero was supplied or computed.
    ZeroAmount,
    /// A liquidity operation would mint zero shares.
    ZeroSharesMinted,
    /// A pool takes exactly two tokens.
    WrongTokenCount,
    /// The two pool tokens must differ.
    DuplicateTokens,
    /// The pool fee must stay below the fee divisor.
    FeeTooLarge,
    /// A computed output fell below the caller's slippage floor.
    MinAmountNotMet,
    /// The principal already holds a share entry in this pool.
    AlreadyRegistered,
    /// The receiving principal holds no share entry in this pool.
    NotRegistered,
    /// The sending principal holds no share entry, or too few shares for a
    /// transfer.
    NoShares,
    /// The share holder owns fewer shares than it asked to burn.
    NotEnoughShares,
    /// The swap request names an unknown or repeated token, an empty
    /// reserve, or a zero input amount.
    Invalid,
    /// Funds for a token outside the allow-list cannot be parked in
    /// lost-and-found; this is fatal and needs operator intervention.
    NonWhitelistedLostFound,
    /// The settlement callback saw a result count other than one; the host
    /// broke the protocol and the outcome is unrecoverable.
    CallbackArityViolation,
    /// The principal has no account record.
    AccountNotRegistered,
    /// An inbound deposit must carry a positive amount.
    AmountMustBePositive,
    /// No pool exists at the given index.
    NoPool,
}

} // verus!
