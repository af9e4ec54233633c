//! The operations a host delivers to the ledger, each taking the current
//! state and the caller, and either changing the state as one unit or
//! failing and changing nothing.
use vstd::prelude::*;

use crate::access::{require_not_paused, require_owner};
use crate::allowance::allowances_after_set;
use crate::amount::{amount_max, ContractError};
use crate::ledger::balances_after_set;
use crate::state::{State, TokenInfo};

verus! {

/// What a successful operation did, for the host to report.
#[derive(Clone, Debug, PartialEq, Eq)]
pub enum Outcome {
    Transferred { from: String, to: String, amount: u128 },
    Approved { owner: String, spender: String, amount: u128 },
    TransferredFrom { from: String, to: String, amount: u128 },
    AllowanceDecreased { owner: String, spender: String, amount: u128 },
    Burned { from: String, amount: u128 },
    Minted { to: String, amount: u128 },
    Paused,
    Unpaused,
}

#[derive(Clone, Debug, PartialEq, Eq)]
pub struct InstantiateMsg {
    pub initial_balances: Vec<InitialBalance>,
}

#[derive(Clone, Debug, PartialEq, Eq)]
pub struct InitialBalance {
    pub address: String,
    pub amount: u128,
}

#[derive(Clone, Debug, PartialEq, Eq)]
pub struct BalanceQuery {
    pub address: String,
}

#[derive(Clone, Copy, Debug, PartialEq, Eq, Structural)]
pub struct BalanceResponse {
    pub amount: u128,
}

/// Balances after `amount` moved from `from` to `to` (the same address when
/// `from == to`).
pub open spec fn moved(pre: State, post: State, from: Seq<char>, to: Seq<char>, amount: nat) -> bool {
    forall|x: Seq<char>| #[trigger]
        post.balance(x) == pre.balance(x) - (if x == from {
            amount as int
        } else {
            0
        }) + (if x == to {
            amount as int
        } else {
            0
        })
}

/// Owner, flags and token metadata are as before.
pub open spec fn same_control(pre: State, post: State) -> bool {
    &&& post.owner == pre.owner
    &&& post.paused == pre.paused
    &&& post.reentrancy_guard == pre.reentrancy_guard
    &&& post.token_info == pre.token_info
}

/// Effect of a successful transfer of `amount` from `from` to `to`.
pub open spec fn transferred(
    pre: State,
    post: State,
    from: Seq<char>,
    to: Seq<char>,
    amount: nat,
) -> bool {
    &&& moved(pre, post, from, to, amount)
    &&& post.allowances == pre.allowances
    &&& same_control(pre, post)
}

/// Effect of a successful approval: `spender` may draw `amount` more from `owner`.
pub open spec fn approved(
    pre: State,
    post: State,
    owner: Seq<char>,
    spender: Seq<char>,
    amount: nat,
) -> bool {
    &&& allowances_after_set(
        pre.allowances@,
        post.allowances@,
        owner,
        spender,
        (pre.allowance(owner, spender) + amount) as nat,
    )
    &&& post.balances == pre.balances
    &&& same_control(pre, post)
}

/// Effect of a successful decrease: `spender` may draw `amount` less from `owner`.
pub open spec fn allowance_lowered(
    pre: State,
    post: State,
    owner: Seq<char>,
    spender: Seq<char>,
    amount: nat,
) -> bool {
    &&& allowances_after_set(
        pre.allowances@,
        post.allowances@,
        owner,
        spender,
        (pre.allowance(owner, spender) - amount) as nat,
    )
    &&& post.balances == pre.balances
    &&& same_control(pre, post)
}

/// Effect of a successful delegated transfer by `spender` out of `owner`'s
/// balance to `to`.
pub open spec fn transferred_from(
    pre: State,
    post: State,
    spender: Seq<char>,
    owner: Seq<char>,
    to: Seq<char>,
    amount: nat,
) -> bool {
    &&& allowances_after_set(
        pre.allowances@,
        post.allowances@,
        owner,
        spender,
        (pre.allowance(owner, spender) - amount) as nat,
    )
    &&& moved(pre, post, owner, to, amount)
    &&& same_control(pre, post)
}

/// Everything but the pause flag is as before, and the flag reads `paused`.
pub open spec fn pause_set(pre: State, post: State, paused: bool) -> bool {
    post == (State { paused, ..pre })
}

/// Balance of the queried address; zero when it never held tokens.
pub fn query(state: &State, msg: &BalanceQuery) -> (r: BalanceResponse)
    requires
        state.wf(),
    ensures
        r.amount == state.balance(msg.address@),
{
    BalanceResponse { amount: state.balance_of(&msg.address) }
}

/// Moves `amount` of `sender`'s tokens to `recipient`.
pub fn transfer(state: &mut State, sender: &String, recipient: &String, amount: u128) -> (r:
    Result<Outcome, ContractError>)
    requires
        old(state).wf(),
    ensures
        final(state).wf(),
        amount <= old(state).balance(sender@) ==> r == Ok::<Outcome, ContractError>(
            (Outcome::Transferred { from: *sender, to: *recipient, amount }),
        ) && transferred(*old(state), *final(state), sender@, recipient@, amount as nat),
        amount > old(state).balance(sender@) ==> r == Err::<Outcome, ContractError>(
            ContractError::InsufficientBalance,
        ) && *final(state) == *old(state),
{
    let ghost s0 = *state;
    match state.debit(sender, amount) {
        Ok(()) => {},
        Err(e) => {
            return Err(e);
        },
    }
    let ghost s1 = *state;
    proof {
        state.lemma_balance_le_sum(recipient@);
    }
    match state.credit(recipient, amount) {
        Ok(()) => {},
        Err(e) => {
            return Err(e);
        },
    }
    proof {
        assert forall|x: Seq<char>| #[trigger]
            state.balance(x) == s0.balance(x) - (if x == sender@ {
                amount as int
            } else {
                0
            }) + (if x == recipient@ {
                amount as int
            } else {
                0
            }) by {
            assert(state.balance(x) == if x == recipient@ {
                s1.balance(x) + amount
            } else {
                s1.balance(x) as int
            });
        }
    }
    Ok(Outcome::Transferred { from: sender.clone(), to: recipient.clone(), amount })
}

/// Lets `spender` draw `amount` more of `caller`'s tokens; approvals add up.
pub fn approve(state: &mut State, caller: &String, spender: &String, amount: u128) -> (r: Result<
    Outcome,
    ContractError,
>)
    requires
        old(state).wf(),
    ensures
        final(state).wf(),
        old(state).allowance(caller@, spender@) + amount <= amount_max() ==> r == Ok::<
            Outcome,
            ContractError,
        >((Outcome::Approved { owner: *caller, spender: *spender, amount })) && approved(
            *old(state),
            *final(state),
            caller@,
            spender@,
            amount as nat,
        ),
        old(state).allowance(caller@, spender@) + amount > amount_max() ==> r == Err::<
            Outcome,
            ContractError,
        >(ContractError::ArithmeticOverflow) && *final(state) == *old(state),
{
    match state.increase(caller, spender, amount) {
        Ok(()) => Ok(Outcome::Approved { owner: caller.clone(), spender: spender.clone(), amount }),
        Err(e) => Err(e),
    }
}

/// Lowers by `amount` what `spender` may draw of `caller`'s tokens.
pub fn decrease_allowance(
    state: &mut State,
    caller: &String,
    spender: &String,
    amount: u128,
) -> (r: Result<Outcome, ContractError>)
    requires
        old(state).wf(),
    ensures
        final(state).wf(),
        amount <= old(state).allowance(caller@, spender@) ==> r == Ok::<Outcome, ContractError>(
            (Outcome::AllowanceDecreased { owner: *caller, spender: *spender, amount }),
        ) && allowance_lowered(*old(state), *final(state), caller@, spender@, amount as nat),
        amount > old(state).allowance(caller@, spender@) ==> r == Err::<Outcome, ContractError>(
            ContractError::InsufficientAllowance,
        ) && *final(state) == *old(state),
{
    match state.decrease(caller, spender, amount) {
        Ok(()) => Ok(
            Outcome::AllowanceDecreased { owner: caller.clone(), spender: spender.clone(), amount },
        ),
        Err(e) => Err(e),
    }
}

/// `caller` moves `amount` of `owner`'s tokens to `recipient`, spending that
/// much of the allowance `owner` gave `caller`. A short allowance is reported
/// before a short balance.
pub fn transfer_from(
    state: &mut State,
    caller: &String,
    owner: &String,
    recipient: &String,
    amount: u128,
) -> (r: Result<Outcome, ContractError>)
    requires
        old(state).wf(),
    ensures
        final(state).wf(),
        amount <= old(state).allowance(owner@, caller@) && amount <= old(state).balance(owner@)
            ==> r == Ok::<Outcome, ContractError>(
            (Outcome::TransferredFrom { from: *owner, to: *recipient, amount }),
        ) && transferred_from(
            *old(state),
            *final(state),
            caller@,
            owner@,
            recipient@,
            amount as nat,
        ),
        amount > old(state).allowance(owner@, caller@) ==> r == Err::<Outcome, ContractError>(
            ContractError::InsufficientAllowance,
        ) && *final(state) == *old(state),
        amount <= old(state).allowance(owner@, caller@) && amount > old(state).balance(owner@)
            ==> r == Err::<Outcome, ContractError>(ContractError::InsufficientBalance)
            && *final(state) == *old(state),
{
    let ghost s0 = *state;
    if state.allowance_of(owner, caller) < amount {
        return Err(ContractError::InsufficientAllowance);
    }
    if state.balance_of(owner) < amount {
        return Err(ContractError::InsufficientBalance);
    }
    match state.decrease(owner, caller, amount) {
        Ok(()) => {},
        Err(e) => {
            return Err(e);
        },
    }
    let ghost s1 = *state;
    match state.debit(owner, amount) {
        Ok(()) => {},
        Err(e) => {
            return Err(e);
        },
    }
    let ghost s2 = *state;
    proof {
        state.lemma_balance_le_sum(recipient@);
    }
    match state.credit(recipient, amount) {
        Ok(()) => {},
        Err(e) => {
            return Err(e);
        },
    }
    proof {
        assert forall|x: Seq<char>| #[trigger]
            state.balance(x) == s0.balance(x) - (if x == owner@ {
                amount as int
            } else {
                0
            }) + (if x == recipient@ {
                amount as int
            } else {
                0
            }) by {
            assert(state.balance(x) == if x == recipient@ {
                s2.balance(x) + amount
            } else {
                s2.balance(x) as int
            });
            assert(s1.balance(x) == s0.balance(x));
        }
    }
    Ok(Outcome::TransferredFrom { from: owner.clone(), to: recipient.clone(), amount })
}

/// Destroys `amount` of `caller`'s tokens, lowering the total supply by as much.
pub fn burn(state: &mut State, caller: &String, amount: u128) -> (r: Result<Outcome, ContractError>)
    requires
        old(state).wf(),
    ensures
        final(state).wf(),
        amount <= old(state).balance(caller@) ==> {
            &&& r == Ok::<Outcome, ContractError>((Outcome::Burned { from: *caller, amount }))
            &&& balances_after_set(
                old(state).balances@,
                final(state).balances@,
                caller@,
                (old(state).balance(caller@) - amount) as nat,
            )
            &&& final(state).supply() + amount == old(state).supply()
            &&& final(state).allowances == old(state).allowances
            &&& final(state).owner == old(state).owner
            &&& final(state).paused == old(state).paused
            &&& final(state).reentrancy_guard == old(state).reentrancy_guard
            &&& final(state).token_info.name == old(state).token_info.name
            &&& final(state).token_info.symbol == old(state).token_info.symbol
            &&& final(state).token_info.decimals == old(state).token_info.decimals
        },
        amount > old(state).balance(caller@) ==> r == Err::<Outcome, ContractError>(
            ContractError::InsufficientBalance,
        ) && *final(state) == *old(state),
{
    proof {
        state.lemma_balance_le_sum(caller@);
    }
    match state.debit(caller, amount) {
        Ok(()) => {},
        Err(e) => {
            return Err(e);
        },
    }
    match state.burn_supply(amount) {
        Ok(()) => {},
        Err(e) => {
            return Err(e);
        },
    }
    Ok(Outcome::Burned { from: caller.clone(), amount })
}

/// The owner creates `amount` new tokens for `recipient`. Checked in this
/// order: the caller is the owner, the contract is not paused, the guard is
/// free, the new supply fits. The guard is held only around the mutation and
/// is free again on every exit.
pub fn mint(state: &mut State, caller: &String, recipient: &String, amount: u128) -> (r: Result<
    Outcome,
    ContractError,
>)
    requires
        old(state).wf(),
    ensures
        final(state).wf(),
        caller@ != old(state).owner@ ==> r == Err::<Outcome, ContractError>(
            ContractError::Unauthorized,
        ),
        caller@ == old(state).owner@ && old(state).paused ==> r == Err::<Outcome, ContractError>(
            ContractError::ContractPaused,
        ),
        caller@ == old(state).owner@ && !old(state).paused && old(state).reentrancy_guard ==> r
            == Err::<Outcome, ContractError>(ContractError::ReentrantCall),
        caller@ == old(state).owner@ && !old(state).paused && !old(state).reentrancy_guard
            && old(state).supply() + amount > amount_max() ==> r == Err::<Outcome, ContractError>(
            ContractError::ArithmeticOverflow,
        ),
        caller@ == old(state).owner@ && !old(state).paused && !old(state).reentrancy_guard
            && old(state).supply() + amount <= amount_max() ==> {
            &&& r == Ok::<Outcome, ContractError>((Outcome::Minted { to: *recipient, amount }))
            &&& balances_after_set(
                old(state).balances@,
                final(state).balances@,
                recipient@,
                (old(state).balance(recipient@) + amount) as nat,
            )
            &&& final(state).supply() == old(state).supply() + amount
            &&& final(state).allowances == old(state).allowances
            &&& final(state).owner == old(state).owner
            &&& final(state).paused == old(state).paused
            &&& !final(state).reentrancy_guard
            &&& final(state).token_info.name == old(state).token_info.name
            &&& final(state).token_info.symbol == old(state).token_info.symbol
            &&& final(state).token_info.decimals == old(state).token_info.decimals
        },
        r is Err ==> *final(state) == *old(state),
{
    match require_owner(caller, state) {
        Ok(()) => {},
        Err(e) => {
            return Err(e);
        },
    }
    match require_not_paused(state) {
        Ok(()) => {},
        Err(e) => {
            return Err(e);
        },
    }
    match state.enter() {
        Ok(()) => {},
        Err(e) => {
            return Err(e);
        },
    }
    proof {
        state.lemma_balance_le_sum(recipient@);
    }
    match state.mint_supply(amount) {
        Ok(()) => {},
        Err(e) => {
            state.exit();
            return Err(e);
        },
    }
    match state.credit(recipient, amount) {
        Ok(()) => {},
        Err(e) => {
            state.exit();
            return Err(e);
        },
    }
    state.exit();
    Ok(Outcome::Minted { to: recipient.clone(), amount })
}

/// The owner stops minting.
pub fn pause(state: &mut State, caller: &String) -> (r: Result<Outcome, ContractError>)
    requires
        old(state).wf(),
    ensures
        final(state).wf(),
        caller@ == old(state).owner@ ==> r == Ok::<Outcome, ContractError>(Outcome::Paused)
            && pause_set(*old(state), *final(state), true),
        caller@ != old(state).owner@ ==> r == Err::<Outcome, ContractError>(
            ContractError::Unauthorized,
        ) && *final(state) == *old(state),
{
    match require_owner(caller, state) {
        Ok(()) => {},
        Err(e) => {
            return Err(e);
        },
    }
    state.paused = true;
    Ok(Outcome::Paused)
}

/// The owner allows minting again.
pub fn unpause(state: &mut State, caller: &String) -> (r: Result<Outcome, ContractError>)
    requires
        old(state).wf(),
    ensures
        final(state).wf(),
        caller@ == old(state).owner@ ==> r == Ok::<Outcome, ContractError>(Outcome::Unpaused)
            && pause_set(*old(state), *final(state), false),
        caller@ != old(state).owner@ ==> r == Err::<Outcome, ContractError>(
            ContractError::Unauthorized,
        ) && *final(state) == *old(state),
{
    match require_owner(caller, state) {
        Ok(()) => {},
        Err(e) => {
            return Err(e);
        },
    }
    state.paused = false;
    Ok(Outcome::Unpaused)
}

/// Sum of all amounts in an initial-balance list.
pub open spec fn initial_total(list: Seq<InitialBalance>) -> nat
    decreases list.len(),
{
    if list.len() == 0 {
        0
    } else {
        initial_total(list.drop_last()) + list.last().amount as nat
    }
}

/// Sum of the amounts that an initial-balance list gives address `a`.
pub open spec fn initial_balance(list: Seq<InitialBalance>, a: Seq<char>) -> nat
    decreases list.len(),
{
    if list.len() == 0 {
        0
    } else {
        initial_balance(list.drop_last(), a) + if list.last().address@ == a {
            list.last().amount as nat
        } else {
            0
        }
    }
}

proof fn lemma_prefix_total_le(list: Seq<InitialBalance>, k: int)
    requires
        0 <= k <= list.len(),
    ensures
        initial_total(list.take(k)) <= initial_total(list),
    decreases list.len(),
{
    if k == list.len() {
        assert(list.take(k) =~= list);
    } else {
        assert(list.take(k) =~= list.drop_last().take(k));
        lemma_prefix_total_le(list.drop_last(), k);
    }
}

/// Creates the ledger: `sender` becomes the owner, the contract starts
/// unpaused with the guard free, and each listed amount is credited to its
/// address and added to the supply. Fails with `ArithmeticOverflow` when the
/// amounts together do not fit.
pub fn instantiate(sender: &String, msg: &InstantiateMsg) -> (r: Result<State, ContractError>)
    ensures
        initial_total(msg.initial_balances@) <= amount_max() ==> r is Ok,
        initial_total(msg.initial_balances@) > amount_max() ==> r == Err::<State, ContractError>(
            ContractError::ArithmeticOverflow,
        ),
        r matches Ok(s) ==> {
            &&& s.wf()
            &&& s.owner == *sender
            &&& !s.paused
            &&& !s.reentrancy_guard
            &&& s.supply() == initial_total(msg.initial_balances@)
            &&& forall|a: Seq<char>| #[trigger]
                s.balance(a) == initial_balance(msg.initial_balances@, a)
            &&& s.allowances@.len() == 0
            &&& s.token_info.name@ == "My Token"@
            &&& s.token_info.symbol@ == "MYT"@
            &&& s.token_info.decimals == 6
        },
{
    let ghost list = msg.initial_balances@;
    let mut state = State::new();
    state.owner = sender.clone();
    state.token_info = TokenInfo {
        name: String::from_str("My Token"),
        symbol: String::from_str("MYT"),
        decimals: 6,
        total_supply: 0,
    };
    proof {
        assert(list.take(0) =~= Seq::<InitialBalance>::empty());
        assert forall|a: Seq<char>| #[trigger] state.balance(a) == initial_balance(list.take(0), a) by {}
    }
    let mut i: usize = 0;
    while i < msg.initial_balances.len()
        invariant
            i <= list.len(),
            list == msg.initial_balances@,
            state.wf(),
            state.owner == *sender,
            !state.paused,
            !state.reentrancy_guard,
            state.allowances@.len() == 0,
            state.token_info.name@ == "My Token"@,
            state.token_info.symbol@ == "MYT"@,
            state.token_info.decimals == 6,
            state.supply() == initial_total(list.take(i as int)),
            forall|a: Seq<char>| #[trigger] state.balance(a) == initial_balance(list.take(i as int), a),
        decreases list.len() - i,
    {
        let entry = &msg.initial_balances[i];
        let ghost pre = state;
        proof {
            assert(list.take(i + 1).drop_last() =~= list.take(i as int));
            assert(list.take(i + 1).last() == list[i as int]);
            lemma_prefix_total_le(list, i + 1);
            state.lemma_balance_le_sum(entry.address@);
        }
        match state.mint_supply(entry.amount) {
            Ok(()) => {},
            Err(e) => {
                return Err(e);
            },
        }
        match state.credit(&entry.address, entry.amount) {
            Ok(()) => {},
            Err(e) => {
                return Err(e);
            },
        }
        proof {
            assert forall|a: Seq<char>| #[trigger]
                state.balance(a) == initial_balance(list.take(i + 1), a) by {
                assert(pre.balance(a) == initial_balance(list.take(i as int), a));
            }
        }
        i = i + 1;
    }
    proof {
        assert(list.take(i as int) =~= list);
    }
    Ok(state)
}

} // verus!
