use token_ledger::amount::{checked_add, checked_sub, ContractError};
use token_ledger::contract::{
    approve, burn, decrease_allowance, instantiate, mint, pause, query, transfer, transfer_from,
    unpause, BalanceQuery, InitialBalance, InstantiateMsg, Outcome,
};
use token_ledger::state::State;

fn s(x: &str) -> String {
    x.to_string()
}

fn fresh() -> State {
    let msg = InstantiateMsg {
        initial_balances: vec![InitialBalance { address: s("alice"), amount: 100 }],
    };
    instantiate(&s("owner"), &msg).unwrap()
}

fn bal(state: &State, who: &str) -> u128 {
    query(state, &BalanceQuery { address: s(who) }).amount
}

#[test]
fn instantiate_credits_initial_balances() {
    let state = fresh();
    assert_eq!(bal(&state, "alice"), 100);
    assert_eq!(state.token_info.total_supply, 100);
    assert_eq!(state.owner, "owner");
    assert!(!state.paused);
    assert!(!state.reentrancy_guard);
    assert_eq!(state.token_info.name, "My Token");
    assert_eq!(state.token_info.symbol, "MYT");
    assert_eq!(state.token_info.decimals, 6);
}

#[test]
fn instantiate_merges_repeated_addresses() {
    let msg = InstantiateMsg {
        initial_balances: vec![
            InitialBalance { address: s("alice"), amount: 10 },
            InitialBalance { address: s("bob"), amount: 5 },
            InitialBalance { address: s("alice"), amount: 7 },
        ],
    };
    let state = instantiate(&s("owner"), &msg).unwrap();
    assert_eq!(bal(&state, "alice"), 17);
    assert_eq!(bal(&state, "bob"), 5);
    assert_eq!(state.token_info.total_supply, 22);
}

#[test]
fn instantiate_overflow_fails() {
    let msg = InstantiateMsg {
        initial_balances: vec![
            InitialBalance { address: s("alice"), amount: u128::MAX },
            InitialBalance { address: s("bob"), amount: 1 },
        ],
    };
    assert_eq!(instantiate(&s("owner"), &msg), Err(ContractError::ArithmeticOverflow));
}

#[test]
fn instantiate_empty_list() {
    let state = instantiate(&s("owner"), &InstantiateMsg { initial_balances: vec![] }).unwrap();
    assert_eq!(state.token_info.total_supply, 0);
    assert_eq!(bal(&state, "alice"), 0);
}

#[test]
fn query_unknown_address_is_zero() {
    let state = fresh();
    assert_eq!(bal(&state, "nobody"), 0);
}

#[test]
fn transfer_moves_tokens() {
    let mut state = fresh();
    let r = transfer(&mut state, &s("alice"), &s("bob"), 40);
    assert_eq!(r, Ok(Outcome::Transferred { from: s("alice"), to: s("bob"), amount: 40 }));
    assert_eq!(bal(&state, "alice"), 60);
    assert_eq!(bal(&state, "bob"), 40);
    assert_eq!(state.token_info.total_supply, 100);
}

#[test]
fn transfer_insufficient_balance_changes_nothing() {
    let mut state = fresh();
    let before = state.clone();
    assert_eq!(
        transfer(&mut state, &s("alice"), &s("bob"), 101),
        Err(ContractError::InsufficientBalance)
    );
    assert_eq!(state, before);
    assert_eq!(
        transfer(&mut state, &s("nobody"), &s("bob"), 1),
        Err(ContractError::InsufficientBalance)
    );
    assert_eq!(state, before);
}

#[test]
fn transfer_to_self_keeps_balance() {
    let mut state = fresh();
    assert!(transfer(&mut state, &s("alice"), &s("alice"), 30).is_ok());
    assert_eq!(bal(&state, "alice"), 100);
    assert_eq!(state.token_info.total_supply, 100);
}

#[test]
fn approve_accumulates() {
    let mut state = fresh();
    approve(&mut state, &s("alice"), &s("bob"), 25).unwrap();
    approve(&mut state, &s("alice"), &s("bob"), 25).unwrap();
    assert_eq!(state.allowance_of(&s("alice"), &s("bob")), 50);
    assert_eq!(state.allowance_of(&s("bob"), &s("alice")), 0);
}

#[test]
fn approve_overflow_fails() {
    let mut state = fresh();
    approve(&mut state, &s("alice"), &s("bob"), u128::MAX).unwrap();
    let before = state.clone();
    assert_eq!(
        approve(&mut state, &s("alice"), &s("bob"), 1),
        Err(ContractError::ArithmeticOverflow)
    );
    assert_eq!(state, before);
}

#[test]
fn transfer_from_spends_allowance() {
    let mut state = fresh();
    approve(&mut state, &s("alice"), &s("bob"), 50).unwrap();
    let r = transfer_from(&mut state, &s("bob"), &s("alice"), &s("carol"), 30);
    assert_eq!(r, Ok(Outcome::TransferredFrom { from: s("alice"), to: s("carol"), amount: 30 }));
    assert_eq!(state.allowance_of(&s("alice"), &s("bob")), 20);
    assert_eq!(bal(&state, "alice"), 70);
    assert_eq!(bal(&state, "carol"), 30);
    assert_eq!(state.token_info.total_supply, 100);
}

#[test]
fn transfer_from_over_allowance_fails() {
    let mut state = fresh();
    approve(&mut state, &s("alice"), &s("bob"), 50).unwrap();
    transfer_from(&mut state, &s("bob"), &s("alice"), &s("carol"), 30).unwrap();
    let before = state.clone();
    assert_eq!(
        transfer_from(&mut state, &s("bob"), &s("alice"), &s("carol"), 1000),
        Err(ContractError::InsufficientAllowance)
    );
    assert_eq!(state, before);
    assert_eq!(bal(&state, "alice"), 70);
    assert_eq!(bal(&state, "carol"), 30);
}

#[test]
fn transfer_from_over_balance_fails_without_spending() {
    let mut state = fresh();
    approve(&mut state, &s("alice"), &s("bob"), 500).unwrap();
    let before = state.clone();
    assert_eq!(
        transfer_from(&mut state, &s("bob"), &s("alice"), &s("carol"), 200),
        Err(ContractError::InsufficientBalance)
    );
    assert_eq!(state, before);
    assert_eq!(state.allowance_of(&s("alice"), &s("bob")), 500);
}

#[test]
fn decrease_allowance_lowers() {
    let mut state = fresh();
    approve(&mut state, &s("alice"), &s("bob"), 50).unwrap();
    let r = decrease_allowance(&mut state, &s("alice"), &s("bob"), 50);
    assert_eq!(
        r,
        Ok(Outcome::AllowanceDecreased { owner: s("alice"), spender: s("bob"), amount: 50 })
    );
    assert_eq!(state.allowance_of(&s("alice"), &s("bob")), 0);
    assert_eq!(
        decrease_allowance(&mut state, &s("alice"), &s("bob"), 1),
        Err(ContractError::InsufficientAllowance)
    );
}

#[test]
fn burn_destroys_tokens() {
    let mut state = fresh();
    transfer(&mut state, &s("alice"), &s("bob"), 40).unwrap();
    let r = burn(&mut state, &s("alice"), 60);
    assert_eq!(r, Ok(Outcome::Burned { from: s("alice"), amount: 60 }));
    assert_eq!(bal(&state, "alice"), 0);
    assert_eq!(state.token_info.total_supply, 40);
    let before = state.clone();
    assert_eq!(burn(&mut state, &s("alice"), 1), Err(ContractError::InsufficientBalance));
    assert_eq!(state, before);
}

#[test]
fn mint_by_owner_credits() {
    let mut state = fresh();
    let r = mint(&mut state, &s("owner"), &s("dave"), 10);
    assert_eq!(r, Ok(Outcome::Minted { to: s("dave"), amount: 10 }));
    assert_eq!(bal(&state, "dave"), 10);
    assert_eq!(state.token_info.total_supply, 110);
    assert!(!state.reentrancy_guard);
}

#[test]
fn mint_overflow_fails() {
    let mut state = fresh();
    let before = state.clone();
    assert_eq!(
        mint(&mut state, &s("owner"), &s("dave"), u128::MAX),
        Err(ContractError::ArithmeticOverflow)
    );
    assert_eq!(state, before);
    assert!(mint(&mut state, &s("owner"), &s("dave"), 1).is_ok());
}

#[test]
fn mint_while_guard_held_fails() {
    let mut state = fresh();
    state.reentrancy_guard = true;
    let before = state.clone();
    assert_eq!(
        mint(&mut state, &s("owner"), &s("dave"), 1),
        Err(ContractError::ReentrantCall)
    );
    assert_eq!(state, before);
}

#[test]
fn non_owner_is_unauthorized() {
    let mut state = fresh();
    let before = state.clone();
    assert_eq!(mint(&mut state, &s("alice"), &s("alice"), 5), Err(ContractError::Unauthorized));
    assert_eq!(pause(&mut state, &s("alice")), Err(ContractError::Unauthorized));
    assert_eq!(unpause(&mut state, &s("alice")), Err(ContractError::Unauthorized));
    assert_eq!(state, before);
    // a failed mint leaves the guard free, so the owner can still mint
    assert!(mint(&mut state, &s("owner"), &s("alice"), 5).is_ok());
}

#[test]
fn paused_mint_fails_until_unpaused() {
    let mut state = fresh();
    assert_eq!(pause(&mut state, &s("owner")), Ok(Outcome::Paused));
    assert!(state.paused);
    assert_eq!(
        mint(&mut state, &s("owner"), &s("dave"), 10),
        Err(ContractError::ContractPaused)
    );
    assert_eq!(state.token_info.total_supply, 100);
    assert_eq!(mint(&mut state, &s("alice"), &s("dave"), 10), Err(ContractError::Unauthorized));
    assert_eq!(unpause(&mut state, &s("owner")), Ok(Outcome::Unpaused));
    assert!(mint(&mut state, &s("owner"), &s("dave"), 10).is_ok());
    assert_eq!(state.token_info.total_supply, 110);
}

#[test]
fn checked_arithmetic() {
    assert_eq!(checked_add(2, 3), Ok(5));
    assert_eq!(checked_add(u128::MAX, 1), Err(ContractError::ArithmeticOverflow));
    assert_eq!(checked_sub(5, 3), Ok(2));
    assert_eq!(checked_sub(3, 5), Err(ContractError::ArithmeticUnderflow));
}

#[test]
fn empty_state() {
    let state = State::new();
    assert_eq!(state.token_info.total_supply, 0);
    assert!(state.owner.is_empty());
    assert_eq!(state.balance_of(&s("alice")), 0);
}

#[test]
fn well_formedness_check() {
    let mut state = fresh();
    assert!(state.is_well_formed());
    transfer(&mut state, &s("alice"), &s("bob"), 40).unwrap();
    approve(&mut state, &s("alice"), &s("bob"), 5).unwrap();
    assert!(state.is_well_formed());
    let mut wrong_supply = state.clone();
    wrong_supply.token_info.total_supply = 99;
    assert!(!wrong_supply.is_well_formed());
    let mut duplicate = state.clone();
    duplicate.balances.push((s("bob"), token_ledger::state::Balance { amount: 0 }));
    assert!(!duplicate.is_well_formed());
    let mut duplicate_allowance = state.clone();
    let a = duplicate_allowance.allowances[0].clone();
    duplicate_allowance.allowances.push(a);
    assert!(!duplicate_allowance.is_well_formed());
}
