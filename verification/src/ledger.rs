//! The ledger: account records, the conservation invariant, balance
//! lookup and transfer.
//!
//! Balances are kept as a list of `(account identifier, record)` entries
//! with pairwise-distinct identifiers; an account absent from the list
//! has balance 0. The well-formedness predicate [`Token::wf`] states the
//! conservation invariant: the balances always sum to the total supply.

use vstd::prelude::*;

verus! {

/// A single account record: a non-negative balance in the token's
/// smallest unit.
#[derive(Clone, Copy, PartialEq, Eq, Structural, Debug)]
pub struct Account {
    pub balance: u64,
}

/// Why a transfer was refused.
#[derive(Clone, Copy, PartialEq, Eq, Structural, Debug)]
pub enum TransferError {
    /// The ledger was never initialized.
    NotInitialized,
    /// The sender has no account record.
    SenderNotFound,
    /// The sender's balance is smaller than the requested amount.
    InsufficientBalance,
}

impl TransferError {
    /// The message reported to callers for this error.
    pub fn message(&self) -> (r: String)
        ensures
            *self == TransferError::NotInitialized ==> r@ == "Token contract not initialized"@,
            *self == TransferError::SenderNotFound ==> r@ == "Sender account not found"@,
            *self == TransferError::InsufficientBalance ==> r@ == "Insufficient balance"@,
    {
        match self {
            TransferError::NotInitialized => "Token contract not initialized".to_owned(),
            TransferError::SenderNotFound => "Sender account not found".to_owned(),
            TransferError::InsufficientBalance => "Insufficient balance".to_owned(),
        }
    }
}

/// The sum of all balances recorded in `s`.
pub open spec fn sum_balances(s: Seq<(String, Account)>) -> int
    decreases s.len(),
{
    if s.len() == 0 {
        0
    } else {
        sum_balances(s.drop_last()) + s.last().1.balance
    }
}

/// Whether some entry of `s` names the account `k`.
pub open spec fn has_account(s: Seq<(String, Account)>, k: Seq<char>) -> bool {
    exists|i: int| 0 <= i < s.len() && s[i].0@ == k
}

/// The balance of account `k` in `s`: the recorded amount, or 0 when no
/// entry names `k`.
pub open spec fn balance_in(s: Seq<(String, Account)>, k: Seq<char>) -> u64
    decreases s.len(),
{
    if s.len() == 0 {
        0
    } else if s.last().0@ == k {
        s.last().1.balance
    } else {
        balance_in(s.drop_last(), k)
    }
}

/// Each account identifier appears in at most one entry.
pub open spec fn unique_accounts(s: Seq<(String, Account)>) -> bool {
    forall|i: int, j: int| 0 <= i < j < s.len() ==> s[i].0@ != s[j].0@
}

proof fn lemma_sum_nonneg(s: Seq<(String, Account)>)
    ensures
        sum_balances(s) >= 0,
    decreases s.len(),
{
    if s.len() > 0 {
        lemma_sum_nonneg(s.drop_last());
    }
}

proof fn lemma_sum_update(s: Seq<(String, Account)>, i: int, p: (String, Account))
    requires
        0 <= i < s.len(),
    ensures
        sum_balances(s.update(i, p)) == sum_balances(s) - s[i].1.balance + p.1.balance,
    decreases s.len(),
{
    if i == s.len() - 1 {
        assert(s.update(i, p).drop_last() =~= s.drop_last());
        assert(s.update(i, p).last() == p);
    } else {
        assert(s.update(i, p).drop_last() =~= s.drop_last().update(i, p));
        assert(s.update(i, p).last() == s.last());
        lemma_sum_update(s.drop_last(), i, p);
    }
}

proof fn lemma_sum_push(s: Seq<(String, Account)>, p: (String, Account))
    ensures
        sum_balances(s.push(p)) == sum_balances(s) + p.1.balance,
{
    assert(s.push(p).drop_last() =~= s);
    assert(s.push(p).last() == p);
}

proof fn lemma_balance_le_sum(s: Seq<(String, Account)>, i: int)
    requires
        0 <= i < s.len(),
    ensures
        s[i].1.balance <= sum_balances(s),
    decreases s.len(),
{
    lemma_sum_nonneg(s.drop_last());
    if i < s.len() - 1 {
        lemma_balance_le_sum(s.drop_last(), i);
    }
}

proof fn lemma_balance_at_index(s: Seq<(String, Account)>, i: int)
    requires
        unique_accounts(s),
        0 <= i < s.len(),
    ensures
        balance_in(s, s[i].0@) == s[i].1.balance,
    decreases s.len(),
{
    if i < s.len() - 1 {
        assert(s.last().0@ != s[i].0@);
        assert(s.drop_last()[i] == s[i]);
        lemma_balance_at_index(s.drop_last(), i);
    }
}

proof fn lemma_balance_absent(s: Seq<(String, Account)>, k: Seq<char>)
    requires
        !has_account(s, k),
    ensures
        balance_in(s, k) == 0,
    decreases s.len(),
{
    if s.len() > 0 {
        assert(s.last().0@ != k);
        assert(!has_account(s.drop_last(), k)) by {
            if has_account(s.drop_last(), k) {
                let w = choose|w: int| 0 <= w < s.drop_last().len() && s.drop_last()[w].0@ == k;
                assert(s[w].0@ == k);
            }
        }
        lemma_balance_absent(s.drop_last(), k);
    }
}

proof fn lemma_balance_update_other(s: Seq<(String, Account)>, i: int, p: (String, Account), k: Seq<char>)
    requires
        0 <= i < s.len(),
        p.0@ == s[i].0@,
        k != s[i].0@,
    ensures
        balance_in(s.update(i, p), k) == balance_in(s, k),
    decreases s.len(),
{
    if i == s.len() - 1 {
        assert(s.update(i, p).drop_last() =~= s.drop_last());
        assert(s.update(i, p).last() == p);
    } else {
        assert(s.update(i, p).drop_last() =~= s.drop_last().update(i, p));
        assert(s.update(i, p).last() == s.last());
        if s.last().0@ != k {
            lemma_balance_update_other(s.drop_last(), i, p, k);
        }
    }
}

proof fn lemma_keys_update(s: Seq<(String, Account)>, i: int, p: (String, Account))
    requires
        0 <= i < s.len(),
        p.0@ == s[i].0@,
    ensures
        unique_accounts(s) ==> unique_accounts(s.update(i, p)),
        forall|k: Seq<char>| has_account(s.update(i, p), k) <==> has_account(s, k),
{
    let t = s.update(i, p);
    assert(forall|m: int| 0 <= m < s.len() ==> t[m].0@ == s[m].0@);
    assert forall|k: Seq<char>| has_account(t, k) implies has_account(s, k) by {
        let w = choose|w: int| 0 <= w < t.len() && t[w].0@ == k;
        assert(s[w].0@ == k);
    }
    assert forall|k: Seq<char>| has_account(s, k) implies has_account(t, k) by {
        let w = choose|w: int| 0 <= w < s.len() && s[w].0@ == k;
        assert(t[w].0@ == k);
    }
}

proof fn lemma_balance_push(s: Seq<(String, Account)>, p: (String, Account), k: Seq<char>)
    ensures
        balance_in(s.push(p), k) == (if p.0@ == k {
            p.1.balance
        } else {
            balance_in(s, k)
        }),
{
    assert(s.push(p).drop_last() =~= s);
    assert(s.push(p).last() == p);
}

proof fn lemma_has_push(s: Seq<(String, Account)>, p: (String, Account), k: Seq<char>)
    ensures
        has_account(s.push(p), k) <==> (has_account(s, k) || p.0@ == k),
{
    let t = s.push(p);
    if p.0@ == k {
        assert(t[s.len() as int].0@ == k);
    }
    if has_account(s, k) {
        let w = choose|w: int| 0 <= w < s.len() && s[w].0@ == k;
        assert(t[w].0@ == k);
    }
    if has_account(t, k) {
        let w = choose|w: int| 0 <= w < t.len() && t[w].0@ == k;
        if w < s.len() {
            assert(s[w].0@ == k);
        }
    }
}

proof fn lemma_unique_push(s: Seq<(String, Account)>, p: (String, Account))
    requires
        unique_accounts(s),
        !has_account(s, p.0@),
    ensures
        unique_accounts(s.push(p)),
{
    let t = s.push(p);
    assert forall|i: int, j: int| 0 <= i < j < t.len() implies t[i].0@ != t[j].0@ by {
        if j == s.len() {
            if t[i].0@ == p.0@ {
                assert(s[i].0@ == p.0@);
            }
        }
    }
}

/// Conservation: in every well-formed ledger — as `new` constructs it
/// and every transfer preserves it — the recorded balances sum to the
/// total supply.
pub proof fn lemma_conservation(t: Token)
    requires
        t.wf(),
    ensures
        sum_balances(t.balances@) == t.total_supply,
{
}

/// Non-negativity: no account balance is ever negative, and neither is
/// the sum of the recorded balances.
pub proof fn lemma_non_negative(t: Token, k: Seq<char>)
    ensures
        t.spec_balance_of(k) >= 0,
        sum_balances(t.balances@) >= 0,
{
    lemma_sum_nonneg(t.balances@);
}

/// Returns the position of the entry naming `key`, or `None` when no
/// entry does.
fn find_account(balances: &Vec<(String, Account)>, key: &String) -> (r: Option<usize>)
    ensures
        match r {
            Some(i) => i < balances@.len() && balances@[i as int].0@ == key@,
            None => !has_account(balances@, key@),
        },
        r is Some <==> has_account(balances@, key@),
{
    let n = balances.len();
    let mut i: usize = 0;
    while i < n
        invariant
            i <= n,
            n == balances@.len(),
            forall|j: int| 0 <= j < i ==> balances@[j].0@ != key@,
        decreases n - i,
    {
        if balances[i].0 == *key {
            return Some(i);
        }
        i += 1;
    }
    None
}

/// The ledger: immutable metadata and the account records.
pub struct Token {
    pub total_supply: u64,
    pub balances: Vec<(String, Account)>,
    pub owner: String,
    pub symbol: String,
    pub name: String,
    pub decimals: u8,
}

impl Token {
    /// Well-formedness: distinct account identifiers, and conservation —
    /// the recorded balances sum to the total supply.
    pub open spec fn wf(self) -> bool {
        &&& unique_accounts(self.balances@)
        &&& sum_balances(self.balances@) == self.total_supply
    }

    /// The balance of account `k`, 0 when `k` has no record.
    pub open spec fn spec_balance_of(self, k: Seq<char>) -> u64 {
        balance_in(self.balances@, k)
    }

    /// Creates a ledger whose entire supply is credited to `owner`;
    /// every other account implicitly holds 0.
    pub fn new(symbol: String, name: String, decimals: u8, total_supply: u64, owner: String) -> (t: Token)
        ensures
            t.wf(),
            t.total_supply == total_supply,
            t.owner@ == owner@,
            t.symbol@ == symbol@,
            t.name@ == name@,
            t.decimals == decimals,
            t.spec_balance_of(owner@) == total_supply,
            forall|k: Seq<char>| k != owner@ ==> t.spec_balance_of(k) == 0,
            forall|k: Seq<char>| has_account(t.balances@, k) <==> k == owner@,
    {
        let mut balances: Vec<(String, Account)> = Vec::new();
        balances.push((owner.clone(), Account { balance: total_supply }));
        proof {
            assert(balances@.drop_last() =~= Seq::<(String, Account)>::empty());
            assert(sum_balances(Seq::<(String, Account)>::empty()) == 0);
            assert(sum_balances(balances@) == total_supply);
            assert forall|k: Seq<char>| k != owner@ implies balance_in(balances@, k) == 0 by {
                assert(balance_in(Seq::<(String, Account)>::empty(), k) == 0);
            }
        }
        Token { total_supply, balances, owner, symbol, name, decimals }
    }

    /// The current balance of `account`; 0 when the account has no
    /// record. Never fails.
    pub fn balance_of(&self, account: &String) -> (r: u64)
        requires
            self.wf(),
        ensures
            r == self.spec_balance_of(account@),
    {
        match find_account(&self.balances, account) {
            Some(i) => {
                proof {
                    lemma_balance_at_index(self.balances@, i as int);
                }
                self.balances[i].1.balance
            },
            None => {
                proof {
                    lemma_balance_absent(self.balances@, account@);
                }
                0
            },
        }
    }

    /// Moves `amount` from `from` to `to`. Fails with `SenderNotFound`
    /// when `from` has no record, and with `InsufficientBalance` when
    /// `from` holds less than `amount`; on failure the ledger is
    /// unchanged. On success `from` is debited and `to` credited
    /// (creating `to`'s record if absent), and the total supply is
    /// conserved.
    pub fn transfer(&mut self, from: &String, to: &String, amount: u64) -> (r: Result<(), TransferError>)
        requires
            old(self).wf(),
        ensures
            final(self).wf(),
            final(self).total_supply == old(self).total_supply,
            final(self).owner == old(self).owner,
            final(self).symbol == old(self).symbol,
            final(self).name == old(self).name,
            final(self).decimals == old(self).decimals,
            r is Ok <==> (has_account(old(self).balances@, from@)
                && amount <= old(self).spec_balance_of(from@)),
            (r == Err::<(), TransferError>(TransferError::SenderNotFound))
                <==> !has_account(old(self).balances@, from@),
            (r == Err::<(), TransferError>(TransferError::InsufficientBalance))
                <==> (has_account(old(self).balances@, from@)
                    && amount > old(self).spec_balance_of(from@)),
            r is Err ==> final(self).balances@ == old(self).balances@,
            r is Ok ==> forall|k: Seq<char>| k != from@ && k != to@
                ==> final(self).spec_balance_of(k) == old(self).spec_balance_of(k),
            r is Ok && from@ != to@ ==> {
                &&& final(self).spec_balance_of(from@) == old(self).spec_balance_of(from@) - amount
                &&& final(self).spec_balance_of(to@) == old(self).spec_balance_of(to@) + amount
            },
            r is Ok && from@ == to@
                ==> final(self).spec_balance_of(from@) == old(self).spec_balance_of(from@),
            r is Ok && amount == 0 ==> {
                &&& final(self).spec_balance_of(from@) == old(self).spec_balance_of(from@)
                &&& final(self).spec_balance_of(to@) == old(self).spec_balance_of(to@)
            },
            forall|k: Seq<char>| has_account(final(self).balances@, k)
                <==> (has_account(old(self).balances@, k) || (r is Ok && k == to@)),
    {
        let from_idx = match find_account(&self.balances, from) {
            Some(i) => i,
            None => {
                return Err(TransferError::SenderNotFound);
            },
        };
        proof {
            lemma_balance_at_index(self.balances@, from_idx as int);
        }
        let from_balance = self.balances[from_idx].1.balance;
        if from_balance < amount {
            return Err(TransferError::InsufficientBalance);
        }

        let ghost s0 = self.balances@;
        self.balances[from_idx].1.balance = from_balance - amount;
        let ghost s1 = self.balances@;
        proof {
            assert(s1 == s0.update(from_idx as int, s1[from_idx as int]));
            assert(s1[from_idx as int].0 == s0[from_idx as int].0);
            lemma_sum_update(s0, from_idx as int, s1[from_idx as int]);
            lemma_keys_update(s0, from_idx as int, s1[from_idx as int]);
            lemma_balance_at_index(s1, from_idx as int);
            assert forall|k: Seq<char>| k != from@ implies balance_in(s1, k) == balance_in(s0, k) by {
                lemma_balance_update_other(s0, from_idx as int, s1[from_idx as int], k);
            }
        }

        match find_account(&self.balances, to) {
            Some(to_idx) => {
                proof {
                    lemma_balance_at_index(s1, to_idx as int);
                    lemma_balance_le_sum(s1, to_idx as int);
                }
                let to_balance = self.balances[to_idx].1.balance;
                self.balances[to_idx].1.balance = to_balance + amount;
                proof {
                    let s2 = self.balances@;
                    assert(s2 == s1.update(to_idx as int, s2[to_idx as int]));
                    assert(s2[to_idx as int].0 == s1[to_idx as int].0);
                    lemma_sum_update(s1, to_idx as int, s2[to_idx as int]);
                    lemma_keys_update(s1, to_idx as int, s2[to_idx as int]);
                    lemma_balance_at_index(s2, to_idx as int);
                    assert forall|k: Seq<char>| k != to@ implies balance_in(s2, k) == balance_in(s1, k) by {
                        lemma_balance_update_other(s1, to_idx as int, s2[to_idx as int], k);
                    }
                }
            },
            None => {
                proof {
                    lemma_balance_absent(s1, to@);
                    lemma_sum_nonneg(s1);
                }
                self.balances.push((to.clone(), Account { balance: amount }));
                proof {
                    let s2 = self.balances@;
                    let p = s2.last();
                    assert(s2 == s1.push(p));
                    assert(p.0@ == to@);
                    lemma_sum_push(s1, p);
                    lemma_unique_push(s1, p);
                    lemma_balance_push(s1, p, to@);
                    assert forall|k: Seq<char>| k != to@ implies balance_in(s2, k) == balance_in(s1, k) by {
                        lemma_balance_push(s1, p, k);
                    }
                    assert forall|k: Seq<char>| #![trigger has_account(s2, k)]
                        has_account(s2, k) == (has_account(s1, k) || k == to@) by {
                        lemma_has_push(s1, p, k);
                    }
                }
            },
        }
        Ok(())
    }
}

} // verus!
