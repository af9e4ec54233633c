//! Owner check, pause gate and the reentrancy guard.
use vstd::prelude::*;

use crate::amount::ContractError;
use crate::state::State;

verus! {

/// Succeeds exactly when `caller` is the contract's owner.
pub fn require_owner(caller: &String, state: &State) -> (r: Result<(), ContractError>)
    ensures
        caller@ == state.owner@ ==> r is Ok,
        caller@ != state.owner@ ==> r == Err::<(), ContractError>(ContractError::Unauthorized),
{
    if *caller == state.owner {
        Ok(())
    } else {
        Err(ContractError::Unauthorized)
    }
}

/// Succeeds exactly when the contract is not paused.
pub fn require_not_paused(state: &State) -> (r: Result<(), ContractError>)
    ensures
        !state.paused ==> r is Ok,
        state.paused ==> r == Err::<(), ContractError>(ContractError::ContractPaused),
{
    if state.paused {
        Err(ContractError::ContractPaused)
    } else {
        Ok(())
    }
}

impl State {
    /// Takes the reentrancy guard; fails with `ReentrantCall`, changing
    /// nothing, when it is already held.
    pub fn enter(&mut self) -> (r: Result<(), ContractError>)
        ensures
            !old(self).reentrancy_guard ==> r is Ok && *final(self) == (State {
                reentrancy_guard: true,
                ..*old(self)
            }),
            old(self).reentrancy_guard ==> r == Err::<(), ContractError>(
                ContractError::ReentrantCall,
            ) && *final(self) == *old(self),
    {
        if self.reentrancy_guard {
            return Err(ContractError::ReentrantCall);
        }
        self.reentrancy_guard = true;
        Ok(())
    }

    /// Releases the reentrancy guard.
    pub fn exit(&mut self)
        ensures
            *final(self) == (State { reentrancy_guard: false, ..*old(self) }),
    {
        self.reentrancy_guard = false;
    }
}

} // verus!
