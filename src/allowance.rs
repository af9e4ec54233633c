//! The allowance table: how much each spender may still draw from each owner.
use vstd::prelude::*;

use crate::amount::{amount_max, checked_add, checked_sub, ContractError};
use crate::state::{Allowance, State};

verus! {

/// Does entry `x` belong to the pair (`owner`, `spender`)?
pub open spec fn keyed(x: Allowance, owner: Seq<char>, spender: Seq<char>) -> bool {
    x.owner@ == owner && x.spender@ == spender
}

/// Allowance recorded for (`owner`, `spender`), read from the last entry back;
/// zero when absent.
pub open spec fn allowance_in(entries: Seq<Allowance>, owner: Seq<char>, spender: Seq<char>) -> nat
    decreases entries.len(),
{
    if entries.len() == 0 {
        0
    } else if keyed(entries.last(), owner, spender) {
        entries.last().allowance as nat
    } else {
        allowance_in(entries.drop_last(), owner, spender)
    }
}

/// No (owner, spender) pair has two entries.
pub open spec fn allowance_keys_distinct(entries: Seq<Allowance>) -> bool {
    forall|i: int, j: int|
        0 <= i < j < entries.len() ==> !keyed(
            #[trigger] entries[i],
            (#[trigger] entries[j]).owner@,
            entries[j].spender@,
        )
}

/// The table after setting the pair's allowance to `v` reads `v` there and as
/// before for every other pair.
pub open spec fn allowances_after_set(
    pre: Seq<Allowance>,
    post: Seq<Allowance>,
    owner: Seq<char>,
    spender: Seq<char>,
    v: nat,
) -> bool {
    forall|o: Seq<char>, s: Seq<char>| #[trigger]
        allowance_in(post, o, s) == if o == owner && s == spender {
            v
        } else {
            allowance_in(pre, o, s)
        }
}

proof fn lemma_found(e: Seq<Allowance>, i: int)
    requires
        allowance_keys_distinct(e),
        0 <= i < e.len(),
    ensures
        allowance_in(e, e[i].owner@, e[i].spender@) == e[i].allowance,
    decreases e.len(),
{
    if i < e.len() - 1 {
        assert(e.last() == e[e.len() - 1]);
        assert(e.drop_last()[i] == e[i]);
        lemma_found(e.drop_last(), i);
    }
}

proof fn lemma_absent(e: Seq<Allowance>, owner: Seq<char>, spender: Seq<char>)
    requires
        forall|i: int| 0 <= i < e.len() ==> !keyed(#[trigger] e[i], owner, spender),
    ensures
        allowance_in(e, owner, spender) == 0,
    decreases e.len(),
{
    if e.len() > 0 {
        assert(e.last() == e[e.len() - 1]);
        assert forall|i: int| 0 <= i < e.drop_last().len() implies !keyed(
            #[trigger] e.drop_last()[i],
            owner,
            spender,
        ) by {
            assert(e.drop_last()[i] == e[i]);
        }
        lemma_absent(e.drop_last(), owner, spender);
    }
}

proof fn lemma_set(e: Seq<Allowance>, i: int, v: Allowance)
    requires
        allowance_keys_distinct(e),
        0 <= i < e.len(),
        v.owner@ == e[i].owner@,
        v.spender@ == e[i].spender@,
    ensures
        allowance_keys_distinct(e.update(i, v)),
        allowances_after_set(e, e.update(i, v), v.owner@, v.spender@, v.allowance as nat),
    decreases e.len(),
{
    let u = e.update(i, v);
    assert(u.last() == u[u.len() - 1]);
    assert(e.last() == e[e.len() - 1]);
    assert forall|p: int, q: int| 0 <= p < q < u.len() implies !keyed(
        #[trigger] u[p],
        (#[trigger] u[q]).owner@,
        u[q].spender@,
    ) by {
        assert(!keyed(e[p], e[q].owner@, e[q].spender@));
    }
    if i == e.len() - 1 {
        assert(u.drop_last() =~= e.drop_last());
    } else {
        let d = e.drop_last();
        assert(u.drop_last() =~= d.update(i, v));
        assert(d[i] == e[i]);
        assert forall|p: int, q: int| 0 <= p < q < d.len() implies !keyed(
            #[trigger] d[p],
            (#[trigger] d[q]).owner@,
            d[q].spender@,
        ) by {
            assert(d[p] == e[p] && d[q] == e[q]);
        }
        lemma_set(d, i, v);
        assert(!keyed(e[i], e[e.len() - 1].owner@, e[e.len() - 1].spender@));
    }
    assert forall|o: Seq<char>, s: Seq<char>| #[trigger]
        allowance_in(u, o, s) == (if o == v.owner@ && s == v.spender@ {
            v.allowance as nat
        } else {
            allowance_in(e, o, s)
        }) by {
        if i != e.len() - 1 {
            assert(allowance_in(e.drop_last().update(i, v), o, s) == (if o == v.owner@ && s
                == v.spender@ {
                v.allowance as nat
            } else {
                allowance_in(e.drop_last(), o, s)
            }));
        }
    }
}

proof fn lemma_push(e: Seq<Allowance>, v: Allowance)
    requires
        allowance_keys_distinct(e),
        forall|i: int| 0 <= i < e.len() ==> !keyed(#[trigger] e[i], v.owner@, v.spender@),
    ensures
        allowance_keys_distinct(e.push(v)),
        allowances_after_set(e, e.push(v), v.owner@, v.spender@, v.allowance as nat),
{
    let u = e.push(v);
    assert(u.drop_last() =~= e);
    assert(u.last() == v);
    assert forall|p: int, q: int| 0 <= p < q < u.len() implies !keyed(
        #[trigger] u[p],
        (#[trigger] u[q]).owner@,
        u[q].spender@,
    ) by {
        if q == e.len() {
            assert(u[p] == e[p]);
        } else {
            assert(u[p] == e[p] && u[q] == e[q]);
        }
    }
}

/// Index of the (`owner`, `spender`) entry, if any.
fn find_allowance(entries: &Vec<Allowance>, owner: &String, spender: &String) -> (r: Option<
    usize,
>)
    ensures
        match r {
            Some(i) => i < entries@.len() && keyed(entries@[i as int], owner@, spender@),
            None => forall|i: int|
                0 <= i < entries@.len() ==> !keyed(#[trigger] entries@[i], owner@, spender@),
        },
{
    let mut k: usize = 0;
    while k < entries.len()
        invariant
            k <= entries@.len(),
            forall|i: int| 0 <= i < k ==> !keyed(#[trigger] entries@[i], owner@, spender@),
        decreases entries@.len() - k,
    {
        if entries[k].owner == *owner && entries[k].spender == *spender {
            return Some(k);
        }
        k = k + 1;
    }
    None
}

/// Whether no (owner, spender) pair has two entries in the table.
pub fn allowance_keys_unique(entries: &Vec<Allowance>) -> (r: bool)
    ensures
        r == allowance_keys_distinct(entries@),
{
    let n = entries.len();
    let mut j: usize = 0;
    while j < n
        invariant
            n == entries@.len(),
            j <= n,
            forall|p: int, q: int|
                0 <= p < q < j ==> !keyed(
                    #[trigger] entries@[p],
                    (#[trigger] entries@[q]).owner@,
                    entries@[q].spender@,
                ),
        decreases n - j,
    {
        let mut i: usize = 0;
        while i < j
            invariant
                n == entries@.len(),
                i <= j < n,
                forall|p: int|
                    0 <= p < i ==> !keyed(
                        #[trigger] entries@[p],
                        entries@[j as int].owner@,
                        entries@[j as int].spender@,
                    ),
            decreases j - i,
        {
            if entries[i].owner == entries[j].owner && entries[i].spender == entries[j].spender {
                return false;
            }
            i = i + 1;
        }
        j = j + 1;
    }
    true
}

impl State {
    /// Amount `spender` may still draw from `owner`; zero when never approved.
    pub fn allowance_of(&self, owner: &String, spender: &String) -> (r: u128)
        requires
            allowance_keys_distinct(self.allowances@),
        ensures
            r == self.allowance(owner@, spender@),
    {
        match find_allowance(&self.allowances, owner, spender) {
            Some(i) => {
                proof {
                    lemma_found(self.allowances@, i as int);
                }
                self.allowances[i].allowance
            },
            None => {
                proof {
                    lemma_absent(self.allowances@, owner@, spender@);
                }
                0
            },
        }
    }

    /// Stores `v` as the allowance of (`owner`, `spender`).
    fn store_allowance(&mut self, owner: &String, spender: &String, v: u128)
        requires
            allowance_keys_distinct(old(self).allowances@),
        ensures
            allowance_keys_distinct(final(self).allowances@),
            allowances_after_set(
                old(self).allowances@,
                final(self).allowances@,
                owner@,
                spender@,
                v as nat,
            ),
            final(self).owner == old(self).owner,
            final(self).paused == old(self).paused,
            final(self).reentrancy_guard == old(self).reentrancy_guard,
            final(self).token_info == old(self).token_info,
            final(self).balances == old(self).balances,
    {
        let entry = Allowance { spender: spender.clone(), owner: owner.clone(), allowance: v };
        match find_allowance(&self.allowances, owner, spender) {
            Some(i) => {
                proof {
                    lemma_set(self.allowances@, i as int, entry);
                }
                self.allowances.set(i, entry);
            },
            None => {
                proof {
                    lemma_push(self.allowances@, entry);
                }
                self.allowances.push(entry);
            },
        }
    }

    /// Adds `amount` to what `spender` may draw from `owner`; fails with
    /// `ArithmeticOverflow`, changing nothing, when the sum would not fit.
    pub fn increase(&mut self, owner: &String, spender: &String, amount: u128) -> (r: Result<
        (),
        ContractError,
    >)
        requires
            allowance_keys_distinct(old(self).allowances@),
        ensures
            allowance_keys_distinct(final(self).allowances@),
            old(self).allowance(owner@, spender@) + amount <= amount_max() ==> {
                &&& r is Ok
                &&& allowances_after_set(
                    old(self).allowances@,
                    final(self).allowances@,
                    owner@,
                    spender@,
                    (old(self).allowance(owner@, spender@) + amount) as nat,
                )
                &&& final(self).owner == old(self).owner
                &&& final(self).paused == old(self).paused
                &&& final(self).reentrancy_guard == old(self).reentrancy_guard
                &&& final(self).token_info == old(self).token_info
                &&& final(self).balances == old(self).balances
            },
            old(self).allowance(owner@, spender@) + amount > amount_max() ==> r == Err::<
                (),
                ContractError,
            >(ContractError::ArithmeticOverflow) && *final(self) == *old(self),
    {
        let current = self.allowance_of(owner, spender);
        match checked_add(current, amount) {
            Ok(v) => {
                self.store_allowance(owner, spender, v);
                Ok(())
            },
            Err(e) => Err(e),
        }
    }

    /// Takes `amount` from what `spender` may draw from `owner`; fails with
    /// `InsufficientAllowance`, changing nothing, when less is left.
    pub fn decrease(&mut self, owner: &String, spender: &String, amount: u128) -> (r: Result<
        (),
        ContractError,
    >)
        requires
            allowance_keys_distinct(old(self).allowances@),
        ensures
            allowance_keys_distinct(final(self).allowances@),
            amount <= old(self).allowance(owner@, spender@) ==> {
                &&& r is Ok
                &&& allowances_after_set(
                    old(self).allowances@,
                    final(self).allowances@,
                    owner@,
                    spender@,
                    (old(self).allowance(owner@, spender@) - amount) as nat,
                )
                &&& final(self).owner == old(self).owner
                &&& final(self).paused == old(self).paused
                &&& final(self).reentrancy_guard == old(self).reentrancy_guard
                &&& final(self).token_info == old(self).token_info
                &&& final(self).balances == old(self).balances
            },
            amount > old(self).allowance(owner@, spender@) ==> r == Err::<(), ContractError>(
                ContractError::InsufficientAllowance,
            ) && *final(self) == *old(self),
    {
        let current = self.allowance_of(owner, spender);
        if current < amount {
            return Err(ContractError::InsufficientAllowance);
        }
        match checked_sub(current, amount) {
            Ok(v) => {
                self.store_allowance(owner, spender, v);
                Ok(())
            },
            Err(e) => Err(e),
        }
    }
}

} // verus!
