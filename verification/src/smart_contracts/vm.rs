//! The machine that meters the work of a contract.

use crate::text::{contains, text_contains};
use std::collections::HashMap;
use vstd::prelude::*;
use vstd::string::*;

verus! {

/// A metering machine: `gas_used` counts the gas spent, and a run fails once
/// it is more than `gas_limit`.
pub struct VirtualMachine {
    pub memory: HashMap<String, i32>,
    pub gas_limit: u64,
    pub gas_used: u64,
}

/// The gas that a run of `code` costs: 10 where the code holds `loop`;
/// else 5 where it holds `if`; else nothing.
pub open spec fn gas_cost(code: Seq<char>) -> u64 {
    if text_contains(code, "loop"@) {
        10
    } else if text_contains(code, "if"@) {
        5
    } else {
        0
    }
}

/// `used` after `cost` more gas, stopping at the largest 64-bit number.
pub open spec fn gas_after(used: u64, cost: u64) -> u64 {
    if used + cost > u64::MAX {
        u64::MAX
    } else {
        (used + cost) as u64
    }
}

/// Some value of `params` is negative.
pub open spec fn has_negative(params: Seq<i32>) -> bool {
    exists|i: int| 0 <= i < params.len() && params[i] < 0
}

/// What a run hands back: a plain value, or the text of a failure.
pub open spec fn outcome_of(result: Result<i32, String>) -> Result<i32, Seq<char>> {
    match result {
        Ok(value) => Ok(value),
        Err(message) => Err(message@),
    }
}

/// What a run that starts with `used` gas spent hands back under `limit`.
pub open spec fn run_outcome(code: Seq<char>, used: u64, limit: u64) -> Result<i32, Seq<char>> {
    if used + gas_cost(code) > limit {
        Err("Gas limit exceeded"@)
    } else {
        Ok(0)
    }
}

impl VirtualMachine {
    /// A machine with empty memory that has spent no gas.
    pub fn new(gas_limit: u64) -> (vm: VirtualMachine)
        ensures
            vm.memory@ == Map::<String, i32>::empty(),
            vm.gas_limit == gas_limit,
            vm.gas_used == 0,
    {
        VirtualMachine { memory: HashMap::new(), gas_limit, gas_used: 0 }
    }

    /// Runs `code`: charges its gas and fails where the gas spent is then
    /// more than the limit. A run that does not fail hands back 0.
    pub fn execute(&mut self, code: &str, params: &[i32]) -> (result: Result<i32, String>)
        ensures
            outcome_of(result) == run_outcome(code@, old(self).gas_used, old(self).gas_limit),
            final(self).gas_used == gas_after(old(self).gas_used, gas_cost(code@)),
            final(self).gas_limit == old(self).gas_limit,
            final(self).memory == old(self).memory,
    {
        let cost: u64 = if contains(code, "loop") {
            10
        } else if contains(code, "if") {
            5
        } else {
            0
        };
        let exceeded = match self.gas_used.checked_add(cost) {
            Some(used) => used > self.gas_limit,
            None => true,
        };
        self.gas_used = self.gas_used.saturating_add(cost);
        if exceeded {
            Err("Gas limit exceeded".to_owned())
        } else {
            Ok(0)
        }
    }

    /// Sets the limit to `gas_limit` and the gas spent to 0, then runs `code`.
    pub fn execute_with_gas(&mut self, code: &str, params: &[i32], gas_limit: u64) -> (result:
        Result<i32, String>)
        ensures
            outcome_of(result) == run_outcome(code@, 0, gas_limit),
            final(self).gas_used == gas_cost(code@),
            final(self).gas_limit == gas_limit,
            final(self).memory == old(self).memory,
    {
        self.gas_limit = gas_limit;
        self.gas_used = 0;
        self.execute(code, params)
    }

    /// Runs `code` unless a value of `params` is negative; such a call fails
    /// and charges nothing.
    pub fn execute_with_validation(&mut self, code: &str, params: &[i32]) -> (result: Result<
        i32,
        String,
    >)
        ensures
            has_negative(params@) ==> outcome_of(result) == Err::<i32, Seq<char>>(
                "Invalid input: negative values are not allowed"@,
            ) && *final(self) == *old(self),
            !has_negative(params@) ==> outcome_of(result) == run_outcome(
                code@,
                old(self).gas_used,
                old(self).gas_limit,
            ) && final(self).gas_used == gas_after(old(self).gas_used, gas_cost(code@)),
            final(self).gas_limit == old(self).gas_limit,
            final(self).memory == old(self).memory,
    {
        let mut i: usize = 0;
        while i < params.len()
            invariant
                i <= params.len(),
                forall|k: int| 0 <= k < i ==> params@[k] >= 0,
            decreases params.len() - i,
        {
            if params[i] < 0 {
                return Err("Invalid input: negative values are not allowed".to_owned());
            }
            i = i + 1;
        }
        self.execute(code, params)
    }

    /// Runs `code` afresh under a limit of 1000.
    pub fn optimize_execution(&mut self, code: &str, params: &[i32]) -> (result: Result<
        i32,
        String,
    >)
        ensures
            outcome_of(result) == run_outcome(code@, 0, 1000),
            final(self).gas_used == gas_cost(code@),
            final(self).gas_limit == 1000,
            final(self).memory == old(self).memory,
    {
        self.execute_with_gas(code, params, 1000)
    }
}

} // verus!
