//! The balance table and total supply: lookups, credit and debit, and the
//! supply adjustments that pair with them.
use vstd::prelude::*;

use crate::amount::{amount_max, checked_add, checked_sub, ContractError};
use crate::state::{Balance, State};

verus! {

/// Balance recorded for `a` in a table read from its last entry back; zero
/// when absent.
pub open spec fn balance_in(entries: Seq<(String, Balance)>, a: Seq<char>) -> nat
    decreases entries.len(),
{
    if entries.len() == 0 {
        0
    } else if entries.last().0@ == a {
        entries.last().1.amount as nat
    } else {
        balance_in(entries.drop_last(), a)
    }
}

/// Sum of the amounts of a balance table.
pub open spec fn sum_of(entries: Seq<(String, Balance)>) -> nat
    decreases entries.len(),
{
    if entries.len() == 0 {
        0
    } else {
        sum_of(entries.drop_last()) + entries.last().1.amount as nat
    }
}

/// No address has two entries.
pub open spec fn balance_keys_distinct(entries: Seq<(String, Balance)>) -> bool {
    forall|i: int, j: int|
        0 <= i < j < entries.len() ==> #[trigger] entries[i].0@ != #[trigger] entries[j].0@
}

/// The table after setting `a`'s balance to `v` reads `v` at `a` and as before elsewhere.
pub open spec fn balances_after_set(
    pre: Seq<(String, Balance)>,
    post: Seq<(String, Balance)>,
    a: Seq<char>,
    v: nat,
) -> bool {
    forall|b: Seq<char>| #[trigger]
        balance_in(post, b) == if b == a {
            v
        } else {
            balance_in(pre, b)
        }
}

proof fn lemma_found(e: Seq<(String, Balance)>, i: int)
    requires
        balance_keys_distinct(e),
        0 <= i < e.len(),
    ensures
        balance_in(e, e[i].0@) == e[i].1.amount,
    decreases e.len(),
{
    if i < e.len() - 1 {
        assert(e.last() == e[e.len() - 1]);
        assert(e.drop_last()[i] == e[i]);
        lemma_found(e.drop_last(), i);
    }
}

proof fn lemma_absent(e: Seq<(String, Balance)>, a: Seq<char>)
    requires
        forall|i: int| 0 <= i < e.len() ==> #[trigger] e[i].0@ != a,
    ensures
        balance_in(e, a) == 0,
    decreases e.len(),
{
    if e.len() > 0 {
        assert(e.last() == e[e.len() - 1]);
        assert forall|i: int| 0 <= i < e.drop_last().len() implies #[trigger] e.drop_last()[i].0@
            != a by {
            assert(e.drop_last()[i] == e[i]);
        }
        lemma_absent(e.drop_last(), a);
    }
}

proof fn lemma_balance_le_sum(e: Seq<(String, Balance)>, a: Seq<char>)
    ensures
        balance_in(e, a) <= sum_of(e),
    decreases e.len(),
{
    if e.len() > 0 {
        lemma_balance_le_sum(e.drop_last(), a);
    }
}

proof fn lemma_set(e: Seq<(String, Balance)>, i: int, v: (String, Balance))
    requires
        balance_keys_distinct(e),
        0 <= i < e.len(),
        v.0@ == e[i].0@,
    ensures
        balance_keys_distinct(e.update(i, v)),
        sum_of(e.update(i, v)) + e[i].1.amount == sum_of(e) + v.1.amount,
        balances_after_set(e, e.update(i, v), v.0@, v.1.amount as nat),
    decreases e.len(),
{
    let u = e.update(i, v);
    assert(u.last() == u[u.len() - 1]);
    assert(e.last() == e[e.len() - 1]);
    assert forall|p: int, q: int| 0 <= p < q < u.len() implies #[trigger] u[p].0@ != #[trigger] u[q].0@ by {
        assert(e[p].0@ != e[q].0@);
    }
    if i == e.len() - 1 {
        assert(u.drop_last() =~= e.drop_last());
    } else {
        let d = e.drop_last();
        assert(u.drop_last() =~= d.update(i, v));
        assert(d[i] == e[i]);
        assert forall|p: int, q: int| 0 <= p < q < d.len() implies #[trigger] d[p].0@ != #[trigger] d[q].0@ by {
            assert(d[p] == e[p] && d[q] == e[q]);
        }
        lemma_set(d, i, v);
        assert(e[i].0@ != e[e.len() - 1].0@);
    }
    assert forall|b: Seq<char>| #[trigger]
        balance_in(u, b) == (if b == v.0@ {
            v.1.amount as nat
        } else {
            balance_in(e, b)
        }) by {
        if i != e.len() - 1 {
            assert(balance_in(e.drop_last().update(i, v), b) == (if b == v.0@ {
                v.1.amount as nat
            } else {
                balance_in(e.drop_last(), b)
            }));
        }
    }
}

proof fn lemma_push(e: Seq<(String, Balance)>, v: (String, Balance))
    requires
        balance_keys_distinct(e),
        forall|i: int| 0 <= i < e.len() ==> #[trigger] e[i].0@ != v.0@,
    ensures
        balance_keys_distinct(e.push(v)),
        sum_of(e.push(v)) == sum_of(e) + v.1.amount,
        balances_after_set(e, e.push(v), v.0@, v.1.amount as nat),
{
    let u = e.push(v);
    assert(u.drop_last() =~= e);
    assert(u.last() == v);
    assert forall|p: int, q: int| 0 <= p < q < u.len() implies #[trigger] u[p].0@ != #[trigger] u[q].0@ by {
        if q == e.len() {
            assert(u[p] == e[p]);
        } else {
            assert(u[p] == e[p] && u[q] == e[q]);
        }
    }
}

/// Index of `a`'s entry in the balance table, if any.
fn find_balance(entries: &Vec<(String, Balance)>, a: &String) -> (r: Option<usize>)
    ensures
        match r {
            Some(i) => i < entries@.len() && entries@[i as int].0@ == a@,
            None => forall|i: int| 0 <= i < entries@.len() ==> #[trigger] entries@[i].0@ != a@,
        },
{
    let mut k: usize = 0;
    while k < entries.len()
        invariant
            k <= entries@.len(),
            forall|i: int| 0 <= i < k ==> #[trigger] entries@[i].0@ != a@,
        decreases entries@.len() - k,
    {
        if entries[k].0 == *a {
            return Some(k);
        }
        k = k + 1;
    }
    None
}

proof fn lemma_prefix_sum_le(e: Seq<(String, Balance)>, k: int)
    requires
        0 <= k <= e.len(),
    ensures
        sum_of(e.take(k)) <= sum_of(e),
    decreases e.len(),
{
    if k == e.len() {
        assert(e.take(k) =~= e);
    } else {
        assert(e.take(k) =~= e.drop_last().take(k));
        lemma_prefix_sum_le(e.drop_last(), k);
    }
}

/// Whether no address has two entries in the table.
pub fn balance_keys_unique(entries: &Vec<(String, Balance)>) -> (r: bool)
    ensures
        r == balance_keys_distinct(entries@),
{
    let n = entries.len();
    let mut j: usize = 0;
    while j < n
        invariant
            n == entries@.len(),
            j <= n,
            forall|p: int, q: int|
                0 <= p < q < j ==> #[trigger] entries@[p].0@ != #[trigger] entries@[q].0@,
        decreases n - j,
    {
        let mut i: usize = 0;
        while i < j
            invariant
                n == entries@.len(),
                i <= j < n,
                forall|p: int| 0 <= p < i ==> #[trigger] entries@[p].0@ != entries@[j as int].0@,
            decreases j - i,
        {
            if entries[i].0 == entries[j].0 {
                return false;
            }
            i = i + 1;
        }
        j = j + 1;
    }
    true
}

/// Whether the amounts of the table add up to exactly `total`.
pub fn balances_sum_to(entries: &Vec<(String, Balance)>, total: u128) -> (r: bool)
    ensures
        r == (sum_of(entries@) == total),
{
    let mut acc: u128 = 0;
    let mut k: usize = 0;
    while k < entries.len()
        invariant
            k <= entries@.len(),
            acc == sum_of(entries@.take(k as int)),
        decreases entries@.len() - k,
    {
        proof {
            assert(entries@.take(k + 1).drop_last() =~= entries@.take(k as int));
            assert(entries@.take(k + 1).last() == entries@[k as int]);
        }
        match checked_add(acc, entries[k].1.amount) {
            Ok(v) => {
                acc = v;
            },
            Err(_) => {
                proof {
                    lemma_prefix_sum_le(entries@, k + 1);
                }
                return false;
            },
        }
        k = k + 1;
    }
    proof {
        assert(entries@.take(k as int) =~= entries@);
    }
    acc == total
}

impl State {
    /// Balance of `a`, zero for an address never credited.
    pub fn balance_of(&self, a: &String) -> (r: u128)
        requires
            balance_keys_distinct(self.balances@),
        ensures
            r == self.balance(a@),
    {
        match find_balance(&self.balances, a) {
            Some(i) => {
                proof {
                    lemma_found(self.balances@, i as int);
                }
                self.balances[i].1.amount
            },
            None => {
                proof {
                    lemma_absent(self.balances@, a@);
                }
                0
            },
        }
    }

    /// Every balance is at most the sum of all balances.
    pub proof fn lemma_balance_le_sum(&self, a: Seq<char>)
        ensures
            self.balance(a) <= self.balance_sum(),
    {
        lemma_balance_le_sum(self.balances@, a);
    }

    /// Stores `v` as `a`'s balance, updating its entry or adding one.
    fn store_balance(&mut self, a: &String, v: u128)
        requires
            balance_keys_distinct(old(self).balances@),
        ensures
            balance_keys_distinct(final(self).balances@),
            balances_after_set(old(self).balances@, final(self).balances@, a@, v as nat),
            final(self).balance_sum() + old(self).balance(a@) == old(self).balance_sum() + v,
            final(self).owner == old(self).owner,
            final(self).paused == old(self).paused,
            final(self).reentrancy_guard == old(self).reentrancy_guard,
            final(self).token_info == old(self).token_info,
            final(self).allowances == old(self).allowances,
    {
        let entry = (a.clone(), Balance { amount: v });
        match find_balance(&self.balances, a) {
            Some(i) => {
                proof {
                    lemma_found(self.balances@, i as int);
                    lemma_set(self.balances@, i as int, entry);
                }
                self.balances.set(i, entry);
            },
            None => {
                proof {
                    lemma_absent(self.balances@, a@);
                    lemma_push(self.balances@, entry);
                }
                self.balances.push(entry);
            },
        }
    }

    /// Adds `amount` to `a`'s balance; fails with `ArithmeticOverflow`, changing
    /// nothing, when the new balance would not fit.
    pub fn credit(&mut self, a: &String, amount: u128) -> (r: Result<(), ContractError>)
        requires
            balance_keys_distinct(old(self).balances@),
        ensures
            balance_keys_distinct(final(self).balances@),
            old(self).balance(a@) + amount <= amount_max() ==> {
                &&& r is Ok
                &&& balances_after_set(
                    old(self).balances@,
                    final(self).balances@,
                    a@,
                    (old(self).balance(a@) + amount) as nat,
                )
                &&& final(self).balance_sum() == old(self).balance_sum() + amount
                &&& final(self).owner == old(self).owner
                &&& final(self).paused == old(self).paused
                &&& final(self).reentrancy_guard == old(self).reentrancy_guard
                &&& final(self).token_info == old(self).token_info
                &&& final(self).allowances == old(self).allowances
            },
            old(self).balance(a@) + amount > amount_max() ==> r == Err::<(), ContractError>(
                ContractError::ArithmeticOverflow,
            ) && *final(self) == *old(self),
    {
        let current = self.balance_of(a);
        match checked_add(current, amount) {
            Ok(v) => {
                self.store_balance(a, v);
                Ok(())
            },
            Err(e) => Err(e),
        }
    }

    /// Takes `amount` from `a`'s balance; fails with `InsufficientBalance`,
    /// changing nothing, when the balance is smaller.
    pub fn debit(&mut self, a: &String, amount: u128) -> (r: Result<(), ContractError>)
        requires
            balance_keys_distinct(old(self).balances@),
        ensures
            balance_keys_distinct(final(self).balances@),
            amount <= old(self).balance(a@) ==> {
                &&& r is Ok
                &&& balances_after_set(
                    old(self).balances@,
                    final(self).balances@,
                    a@,
                    (old(self).balance(a@) - amount) as nat,
                )
                &&& final(self).balance_sum() + amount == old(self).balance_sum()
                &&& final(self).owner == old(self).owner
                &&& final(self).paused == old(self).paused
                &&& final(self).reentrancy_guard == old(self).reentrancy_guard
                &&& final(self).token_info == old(self).token_info
                &&& final(self).allowances == old(self).allowances
            },
            amount > old(self).balance(a@) ==> r == Err::<(), ContractError>(
                ContractError::InsufficientBalance,
            ) && *final(self) == *old(self),
    {
        let current = self.balance_of(a);
        if current < amount {
            return Err(ContractError::InsufficientBalance);
        }
        match checked_sub(current, amount) {
            Ok(v) => {
                self.store_balance(a, v);
                Ok(())
            },
            Err(e) => Err(e),
        }
    }

    /// Raises the total supply by `amount`; fails with `ArithmeticOverflow`,
    /// changing nothing, when it would not fit.
    pub fn mint_supply(&mut self, amount: u128) -> (r: Result<(), ContractError>)
        ensures
            old(self).supply() + amount <= amount_max() ==> r is Ok && final(self).supply()
                == old(self).supply() + amount,
            old(self).supply() + amount > amount_max() ==> r == Err::<(), ContractError>(
                ContractError::ArithmeticOverflow,
            ),
            r is Err ==> *final(self) == *old(self),
            final(self).balances == old(self).balances,
            final(self).allowances == old(self).allowances,
            final(self).owner == old(self).owner,
            final(self).paused == old(self).paused,
            final(self).reentrancy_guard == old(self).reentrancy_guard,
            final(self).token_info.name == old(self).token_info.name,
            final(self).token_info.symbol == old(self).token_info.symbol,
            final(self).token_info.decimals == old(self).token_info.decimals,
    {
        match checked_add(self.token_info.total_supply, amount) {
            Ok(v) => {
                self.token_info.total_supply = v;
                Ok(())
            },
            Err(e) => Err(e),
        }
    }

    /// Lowers the total supply by `amount`; fails with `ArithmeticUnderflow`,
    /// changing nothing, when the supply is smaller.
    pub fn burn_supply(&mut self, amount: u128) -> (r: Result<(), ContractError>)
        ensures
            amount <= old(self).supply() ==> r is Ok && final(self).supply() + amount
                == old(self).supply(),
            amount > old(self).supply() ==> r == Err::<(), ContractError>(
                ContractError::ArithmeticUnderflow,
            ),
            r is Err ==> *final(self) == *old(self),
            final(self).balances == old(self).balances,
            final(self).allowances == old(self).allowances,
            final(self).owner == old(self).owner,
            final(self).paused == old(self).paused,
            final(self).reentrancy_guard == old(self).reentrancy_guard,
            final(self).token_info.name == old(self).token_info.name,
            final(self).token_info.symbol == old(self).token_info.symbol,
            final(self).token_info.decimals == old(self).token_info.decimals,
    {
        match checked_sub(self.token_info.total_supply, amount) {
            Ok(v) => {
                self.token_info.total_supply = v;
                Ok(())
            },
            Err(e) => Err(e),
        }
    }
}

} // verus!
