//! Checked arithmetic on token amounts and the error taxonomy of the ledger.
use vstd::prelude::*;

verus! {

/// Every way an operation on the ledger can fail.
#[derive(Clone, Copy, Debug, PartialEq, Eq, Structural)]
pub enum ContractError {
    Unauthorized,
    ContractPaused,
    ReentrantCall,
    InsufficientBalance,
    InsufficientAllowance,
    ArithmeticOverflow,
    ArithmeticUnderflow,
}

/// Largest representable amount.
pub open spec fn amount_max() -> int {
    u128::MAX as int
}

/// `a + b`, or `ArithmeticOverflow` when the sum does not fit in 128 bits.
pub fn checked_add(a: u128, b: u128) -> (r: Result<u128, ContractError>)
    ensures
        a + b <= amount_max() ==> r == Ok::<u128, ContractError>((a + b) as u128),
        a + b > amount_max() ==> r == Err::<u128, ContractError>(ContractError::ArithmeticOverflow),
{
    match a.checked_add(b) {
        Some(s) => Ok(s),
        None => Err(ContractError::ArithmeticOverflow),
    }
}

/// `a - b`, or `ArithmeticUnderflow` when `b > a`.
pub fn checked_sub(a: u128, b: u128) -> (r: Result<u128, ContractError>)
    ensures
        b <= a ==> r == Ok::<u128, ContractError>((a - b) as u128),
        b > a ==> r == Err::<u128, ContractError>(ContractError::ArithmeticUnderflow),
{
    match a.checked_sub(b) {
        Some(d) => Ok(d),
        None => Err(ContractError::ArithmeticUnderflow),
    }
}

} // verus!
