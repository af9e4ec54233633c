//! The ledger's data: token metadata, balance and allowance tables, and the
//! per-instance owner, pause and reentrancy flags.
use vstd::prelude::*;

use crate::allowance::{allowance_in, allowance_keys_distinct, allowance_keys_unique};
use crate::ledger::{balance_in, balance_keys_distinct, balance_keys_unique, balances_sum_to, sum_of};

verus! {

#[derive(Clone, Debug, PartialEq, Eq)]
pub struct TokenInfo {
    pub name: String,
    pub symbol: String,
    pub decimals: u8,
    pub total_supply: u128,
}

#[derive(Clone, Copy, Debug, PartialEq, Eq, Structural)]
pub struct Balance {
    pub amount: u128,
}

#[derive(Clone, Debug, PartialEq, Eq)]
pub struct Allowance {
    pub spender: String,
    pub owner: String,
    pub allowance: u128,
}

#[derive(Clone, Debug, PartialEq, Eq)]
pub struct TokenMetadata {
    pub name: String,
    pub symbol: String,
    pub decimals: u8,
    pub total_supply: u128,
}

/// The whole ledger of one contract instance.
///
/// `balances` holds at most one entry per address and `allowances` at most one
/// per (owner, spender) pair; an absent entry reads as zero.
#[derive(Clone, Debug, PartialEq, Eq)]
pub struct State {
    pub owner: String,
    pub paused: bool,
    pub reentrancy_guard: bool,
    pub token_info: TokenInfo,
    pub balances: Vec<(String, Balance)>,
    pub allowances: Vec<Allowance>,
}

impl State {
    /// Balance of address `a`, zero when it has no entry.
    pub open spec fn balance(&self, a: Seq<char>) -> nat {
        balance_in(self.balances@, a)
    }

    /// Sum of every recorded balance.
    pub open spec fn balance_sum(&self) -> nat {
        sum_of(self.balances@)
    }

    /// Amount `spender` may still draw from `owner`, zero when there is no entry.
    pub open spec fn allowance(&self, owner: Seq<char>, spender: Seq<char>) -> nat {
        allowance_in(self.allowances@, owner, spender)
    }

    pub open spec fn supply(&self) -> nat {
        self.token_info.total_supply as nat
    }

    /// The tables are keyed uniquely.
    pub open spec fn tables_wf(&self) -> bool {
        balance_keys_distinct(self.balances@) && allowance_keys_distinct(self.allowances@)
    }

    /// Well-formed between operations: unique keys, and the total supply is
    /// exactly the sum of all balances.
    pub open spec fn wf(&self) -> bool {
        self.tables_wf() && self.supply() == self.balance_sum()
    }

    /// An empty ledger: no owner yet, not paused, guard released, no balances,
    /// no allowances, zero supply.
    pub fn new() -> (s: State)
        ensures
            s.wf(),
            s.owner@ == Seq::<char>::empty(),
            !s.paused,
            !s.reentrancy_guard,
            s.supply() == 0,
            s.balances@.len() == 0,
            s.allowances@.len() == 0,
    {
        State {
            owner: String::new(),
            paused: false,
            reentrancy_guard: false,
            token_info: TokenInfo {
                name: String::new(),
                symbol: String::new(),
                decimals: 0,
                total_supply: 0,
            },
            balances: Vec::new(),
            allowances: Vec::new(),
        }
    }
    /// Whether the state is well formed; a host checks a state it did not get
    /// from this library before handing it to an operation.
    pub fn is_well_formed(&self) -> (r: bool)
        ensures
            r == self.wf(),
    {
        balance_keys_unique(&self.balances) && allowance_keys_unique(&self.allowances)
            && balances_sum_to(&self.balances, self.token_info.total_supply)
    }
}

} // verus!
