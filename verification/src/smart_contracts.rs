//! Contracts: a code text with the two functions that every contract offers,
//! the roles that may call it, and the subscribers to its events.

pub mod vm;

pub use vm::VirtualMachine;

use crate::text::{contains, same_text, string_views, text_contains};
use std::collections::HashMap;
use vm::outcome_of;
use vstd::hash_set::StringHashSet;
use vstd::prelude::*;
use vstd::string::*;

verus! {

/// A contract: its code, its state and the roles that may call it.
pub struct SmartContract {
    pub code: String,
    pub state: HashMap<String, i32>,
    pub roles: StringHashSet,
}

/// The sum of `values` where every partial sum, taken from the left, fits in
/// 32 bits.
pub open spec fn checked_sum(values: Seq<i32>) -> Option<i32>
    decreases values.len(),
{
    if values.len() == 0 {
        Some(0)
    } else {
        match checked_sum(values.drop_last()) {
            Some(sum) => if i32::MIN <= sum + values.last() <= i32::MAX {
                Some((sum + values.last()) as i32)
            } else {
                None
            },
            None => None,
        }
    }
}

/// The product of `values` where every partial product, taken from the left,
/// fits in 32 bits.
pub open spec fn checked_product(values: Seq<i32>) -> Option<i32>
    decreases values.len(),
{
    if values.len() == 0 {
        Some(1)
    } else {
        match checked_product(values.drop_last()) {
            Some(product) => if i32::MIN <= product * values.last() <= i32::MAX {
                Some((product * values.last()) as i32)
            } else {
                None
            },
            None => None,
        }
    }
}

/// What a call of `function_name` on `params` hands back: `add` sums the
/// values and `multiply` multiplies them, each failing where a partial
/// result leaves 32 bits; there is no other function.
pub open spec fn call_outcome(function_name: Seq<char>, params: Seq<i32>) -> Result<
    i32,
    Seq<char>,
> {
    if function_name == "add"@ {
        match checked_sum(params) {
            Some(sum) => Ok(sum),
            None => Err("Arithmetic overflow"@),
        }
    } else if function_name == "multiply"@ {
        match checked_product(params) {
            Some(product) => Ok(product),
            None => Err("Arithmetic overflow"@),
        }
    } else {
        Err("Function not found"@)
    }
}

/// What an audit of `code` finds.
pub open spec fn audit_findings(code: Seq<char>) -> Seq<Seq<char>> {
    if text_contains(code, "unsafe"@) {
        seq!["Unsafe operations detected"@]
    } else {
        Seq::empty()
    }
}

/// Sums `values` from the left; `None` once a partial sum leaves 32 bits.
pub fn sum_checked(values: &[i32]) -> (sum: Option<i32>)
    ensures
        sum == checked_sum(values@),
{
    let mut sum: i32 = 0;
    let mut i: usize = 0;
    while i < values.len()
        invariant
            i <= values.len(),
            checked_sum(values@.take(i as int)) == Some(sum),
        decreases values.len() - i,
    {
        assert(values@.take(i + 1).drop_last() =~= values@.take(i as int));
        match sum.checked_add(values[i]) {
            Some(next) => {
                sum = next;
            },
            None => {
                proof {
                    lemma_sum_stays_none(values@, i + 1);
                }
                return None;
            },
        }
        i = i + 1;
    }
    assert(values@.take(i as int) =~= values@);
    Some(sum)
}

/// Multiplies `values` from the left; `None` once a partial product leaves
/// 32 bits.
pub fn product_checked(values: &[i32]) -> (product: Option<i32>)
    ensures
        product == checked_product(values@),
{
    let mut product: i32 = 1;
    let mut i: usize = 0;
    while i < values.len()
        invariant
            i <= values.len(),
            checked_product(values@.take(i as int)) == Some(product),
        decreases values.len() - i,
    {
        assert(values@.take(i + 1).drop_last() =~= values@.take(i as int));
        match product.checked_mul(values[i]) {
            Some(next) => {
                product = next;
            },
            None => {
                proof {
                    lemma_product_stays_none(values@, i + 1);
                }
                return None;
            },
        }
        i = i + 1;
    }
    assert(values@.take(i as int) =~= values@);
    Some(product)
}

/// Once a partial sum has left 32 bits, no longer run of the values has a
/// sum.
proof fn lemma_sum_stays_none(values: Seq<i32>, n: int)
    requires
        0 <= n <= values.len(),
        checked_sum(values.take(n)) is None,
    ensures
        checked_sum(values) is None,
    decreases values.len() - n,
{
    if n < values.len() {
        assert(values.take(n + 1).drop_last() =~= values.take(n));
        lemma_sum_stays_none(values, n + 1);
    } else {
        assert(values.take(n) =~= values);
    }
}

/// Once a partial product has left 32 bits, no longer run of the values has
/// a product.
proof fn lemma_product_stays_none(values: Seq<i32>, n: int)
    requires
        0 <= n <= values.len(),
        checked_product(values.take(n)) is None,
    ensures
        checked_product(values) is None,
    decreases values.len() - n,
{
    if n < values.len() {
        assert(values.take(n + 1).drop_last() =~= values.take(n));
        lemma_product_stays_none(values, n + 1);
    } else {
        assert(values.take(n) =~= values);
    }
}

/// The code of every contract costs at most ten units of gas.
proof fn lemma_gas_cost_small(code: Seq<char>)
    ensures
        vm::gas_cost(code) <= 10,
{
}

impl SmartContract {
    /// A contract with the code `code`, no state and no roles.
    pub fn new(code: String) -> (contract: SmartContract)
        ensures
            contract.code == code,
            contract.state@ == Map::<String, i32>::empty(),
            contract.roles@ == Set::<Seq<char>>::empty(),
    {
        SmartContract { code, state: HashMap::new(), roles: StringHashSet::new() }
    }

    /// Calls `function_name` on `params`. The code is first run on a fresh
    /// machine under a limit of 1000, which it cannot exceed; the contract
    /// itself does not change.
    pub fn execute(&mut self, function_name: &str, params: &[i32]) -> (result: Result<
        i32,
        String,
    >)
        ensures
            outcome_of(result) == call_outcome(function_name@, params@),
            *final(self) == *old(self),
    {
        let mut machine = VirtualMachine::new(1000);
        proof {
            lemma_gas_cost_small(self.code@);
        }
        match machine.execute_with_gas(self.code.as_str(), params, 1000) {
            Ok(_) => {},
            Err(message) => {
                return Err(message);
            },
        }
        if same_text(function_name, "add") {
            match sum_checked(params) {
                Some(sum) => Ok(sum),
                None => Err("Arithmetic overflow".to_owned()),
            }
        } else if same_text(function_name, "multiply") {
            match product_checked(params) {
                Some(product) => Ok(product),
                None => Err("Arithmetic overflow".to_owned()),
            }
        } else {
            Err("Function not found".to_owned())
        }
    }

    /// Replaces the code. State and roles stay.
    pub fn upgrade(&mut self, new_code: String)
        ensures
            final(self).code == new_code,
            final(self).state == old(self).state,
            final(self).roles == old(self).roles,
    {
        self.code = new_code;
    }

    /// Lets `role` call the contract.
    pub fn add_role(&mut self, role: String)
        ensures
            final(self).roles@ == old(self).roles@.insert(role@),
            final(self).code == old(self).code,
            final(self).state == old(self).state,
    {
        self.roles.insert(role);
    }

    /// Calls `function_name` on `params` for a caller in the role `role`. A
    /// role that the contract does not know is refused.
    pub fn execute_with_role(&mut self, role: &str, function_name: &str, params: &[i32]) -> (result:
        Result<i32, String>)
        ensures
            old(self).roles@.contains(role@) ==> outcome_of(result) == call_outcome(
                function_name@,
                params@,
            ),
            !old(self).roles@.contains(role@) ==> outcome_of(result) == Err::<i32, Seq<char>>(
                "Access denied"@,
            ),
            *final(self) == *old(self),
    {
        if self.roles.contains(role) {
            self.execute(function_name, params)
        } else {
            Err("Access denied".to_owned())
        }
    }

    /// Marks the contract as paused. This core gives the mark no meaning: the
    /// contract stays as it is.
    pub fn pause(&mut self)
        ensures
            *final(self) == *old(self),
    {
    }

    /// Marks the contract as running again. The contract stays as it is.
    pub fn resume(&mut self)
        ensures
            *final(self) == *old(self),
    {
    }

    /// Marks the contract as ended. The contract stays as it is.
    pub fn terminate(&mut self)
        ensures
            *final(self) == *old(self),
    {
    }

    /// The same as `execute`; a failure is handed to the caller, who may log
    /// it.
    pub fn execute_with_error_handling(&mut self, function_name: &str, params: &[i32]) -> (result:
        Result<i32, String>)
        ensures
            outcome_of(result) == call_outcome(function_name@, params@),
            *final(self) == *old(self),
    {
        self.execute(function_name, params)
    }

    /// Looks through the code for what an audit objects to.
    pub fn audit(&self) -> (issues: Vec<String>)
        ensures
            string_views(issues@) == audit_findings(self.code@),
    {
        let mut issues: Vec<String> = Vec::new();
        if contains(self.code.as_str(), "unsafe") {
            issues.push("Unsafe operations detected".to_owned());
        }
        issues
    }
}

/// Those who wait for events: each subscription names an event and holds the
/// function to call when that event is emitted. Subscriptions are kept in the
/// order in which they were made.
pub struct EventManager<F: Fn(&str)> {
    subscribers: Vec<(String, F)>,
}

/// How many of `names` are `event_name`.
pub open spec fn subscriptions_to(names: Seq<Seq<char>>, event_name: Seq<char>) -> nat
    decreases names.len(),
{
    if names.len() == 0 {
        0
    } else {
        subscriptions_to(names.drop_last(), event_name) + if names.last() == event_name {
            1nat
        } else {
            0nat
        }
    }
}

impl<F: Fn(&str)> EventManager<F> {
    #[verifier::type_invariant]
    spec fn callable(self) -> bool {
        forall|i: int, data: &str|
            0 <= i < self.subscribers@.len() ==> #[trigger] call_requires(
                self.subscribers@[i].1,
                (data,),
            )
    }

    /// The events that the subscriptions name, in the order in which they
    /// were made.
    pub closed spec fn event_names(&self) -> Seq<Seq<char>> {
        Seq::new(self.subscribers@.len(), |i: int| self.subscribers@[i].0@)
    }

    /// No subscriptions.
    pub fn new() -> (manager: EventManager<F>)
        ensures
            manager.event_names() == Seq::<Seq<char>>::empty(),
    {
        EventManager { subscribers: Vec::new() }
    }

    /// Subscribes `callback` to the event `event_name`. The callback must
    /// take any data.
    pub fn subscribe(&mut self, event_name: &str, callback: F)
        requires
            forall|data: &str| call_requires(callback, (data,)),
        ensures
            final(self).event_names() == old(self).event_names().push(event_name@),
    {
        proof {
            use_type_invariant(&*self);
        }
        let mut subscribers: Vec<(String, F)> = Vec::new();
        std::mem::swap(&mut subscribers, &mut self.subscribers);
        subscribers.push((event_name.to_owned(), callback));
        self.subscribers = subscribers;
    }

    /// Calls, with `data`, the callbacks subscribed to `event_name`, in the
    /// order of their subscription, and says how many there were.
    pub fn emit(&self, event_name: &str, data: &str) -> (called: usize)
        ensures
            called == subscriptions_to(self.event_names(), event_name@),
    {
        proof {
            use_type_invariant(self);
        }
        let mut called: usize = 0;
        let mut i: usize = 0;
        while i < self.subscribers.len()
            invariant
                i <= self.subscribers.len(),
                called <= i,
                called == subscriptions_to(self.event_names().take(i as int), event_name@),
                forall|k: int, data: &str|
                    0 <= k < self.subscribers@.len() ==> #[trigger] call_requires(
                        self.subscribers@[k].1,
                        (data,),
                    ),
            decreases self.subscribers.len() - i,
        {
            assert(self.event_names().take(i + 1).drop_last() =~= self.event_names().take(
                i as int,
            ));
            if same_text(self.subscribers[i].0.as_str(), event_name) {
                (self.subscribers[i].1)(data);
                called = called + 1;
            }
            i = i + 1;
        }
        assert(self.event_names().take(i as int) =~= self.event_names());
        called
    }
}

} // verus!
