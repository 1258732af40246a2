//! The operations the ledger exposes to its host: initialization,
//! balance query and transfer, over an explicit, possibly not yet
//! initialized state.
//!
//! The host owns a single `Option<Token>` for the process's lifetime
//! and must serialize calls against it; these functions hold the whole
//! decision logic, so the host is left with nothing but storage and
//! transport.

use vstd::prelude::*;
use crate::ledger::{has_account, Token, TransferError};

verus! {

/// A state is well formed when the ledger, if initialized, is.
pub open spec fn state_wf(s: Option<Token>) -> bool {
    s matches Some(t) ==> t.wf()
}

/// The balance of `k` in state `s`; an uninitialized state answers 0
/// for every account.
pub open spec fn state_balance(s: Option<Token>, k: Seq<char>) -> u64 {
    match s {
        Some(t) => t.spec_balance_of(k),
        None => 0,
    }
}

/// Whether `k` has an account record in state `s`.
pub open spec fn state_has_account(s: Option<Token>, k: Seq<char>) -> bool {
    match s {
        Some(t) => has_account(t.balances@, k),
        None => false,
    }
}

/// Creates the ledger singleton, crediting the full supply to `owner`.
/// Any prior state — including balances accumulated by transfers — is
/// discarded and replaced.
pub fn init_token(
    state: &mut Option<Token>,
    owner: String,
    total_supply: u64,
    symbol: String,
    name: String,
    decimals: u8,
)
    ensures
        state_wf(*final(state)),
        *final(state) matches Some(t) && {
            &&& t.total_supply == total_supply
            &&& t.owner@ == owner@
            &&& t.symbol@ == symbol@
            &&& t.name@ == name@
            &&& t.decimals == decimals
        },
        state_balance(*final(state), owner@) == total_supply,
        forall|k: Seq<char>| k != owner@ ==> state_balance(*final(state), k) == 0,
        forall|k: Seq<char>| state_has_account(*final(state), k) <==> k == owner@,
{
    let token = Token::new(symbol, name, decimals, total_supply, owner);
    *state = Some(token);
}

/// The balance of `account`, or 0 when the account has no record or
/// the ledger was never initialized. Never fails.
pub fn get_balance(state: &Option<Token>, account: &String) -> (r: u64)
    requires
        state_wf(*state),
    ensures
        r == state_balance(*state, account@),
{
    match state {
        Some(token) => token.balance_of(account),
        None => 0,
    }
}

/// Moves `amount` from `from` to `to`, refusing the call on an
/// uninitialized state, an unknown sender, or a short balance; a
/// refused call leaves every balance as it was.
pub fn transfer(state: &mut Option<Token>, from: &String, to: &String, amount: u64) -> (r: Result<
    (),
    TransferError,
>)
    requires
        state_wf(*old(state)),
    ensures
        state_wf(*final(state)),
        (r == Err::<(), TransferError>(TransferError::NotInitialized)) <==> *old(state) is None,
        *old(state) is None ==> *final(state) is None,
        r is Ok <==> (state_has_account(*old(state), from@)
            && amount <= state_balance(*old(state), from@)),
        (r == Err::<(), TransferError>(TransferError::SenderNotFound))
            <==> (*old(state) is Some && !state_has_account(*old(state), from@)),
        (r == Err::<(), TransferError>(TransferError::InsufficientBalance))
            <==> (state_has_account(*old(state), from@)
                && amount > state_balance(*old(state), from@)),
        *old(state) matches Some(t) ==> *final(state) matches Some(u) && {
            &&& u.total_supply == t.total_supply
            &&& u.owner == t.owner
            &&& u.symbol == t.symbol
            &&& u.name == t.name
            &&& u.decimals == t.decimals
        },
        r is Err ==> forall|k: Seq<char>|
            state_balance(*final(state), k) == state_balance(*old(state), k),
        r is Ok ==> forall|k: Seq<char>| k != from@ && k != to@
            ==> state_balance(*final(state), k) == state_balance(*old(state), k),
        r is Ok && from@ != to@ ==> {
            &&& state_balance(*final(state), from@) == state_balance(*old(state), from@) - amount
            &&& state_balance(*final(state), to@) == state_balance(*old(state), to@) + amount
        },
        r is Ok && from@ == to@
            ==> state_balance(*final(state), from@) == state_balance(*old(state), from@),
        forall|k: Seq<char>| state_has_account(*final(state), k)
            <==> (state_has_account(*old(state), k) || (r is Ok && k == to@)),
{
    match state {
        Some(token) => token.transfer(from, to, amount),
        None => Err(TransferError::NotInitialized),
    }
}

} // verus!
