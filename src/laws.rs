//! Properties that relate several operations.
use vstd::prelude::*;

use crate::contract::approved;
use crate::state::State;

verus! {

/// Approvals accumulate: two successful approvals of `amount` from `owner` to
/// `spender` leave the allowance `2 * amount` above where it started.
pub proof fn lemma_approve_twice(
    s0: State,
    s1: State,
    s2: State,
    owner: Seq<char>,
    spender: Seq<char>,
    amount: nat,
)
    requires
        approved(s0, s1, owner, spender, amount),
        approved(s1, s2, owner, spender, amount),
    ensures
        s2.allowance(owner, spender) == s0.allowance(owner, spender) + 2 * amount,
{
}

} // verus!
