//! The balance state: which account holds how much.

use crate::text::{compare_names, lemma_name_order_transitive, name_precedes, NameOrder};
use crate::transaction::{tx_views, Transaction, TransactionView};
use vstd::prelude::*;
use vstd::string::*;

verus! {

/// One account of the ledger.
struct Account {
    name: String,
    balance: u64,
}

/// The balances of all accounts. No account occurs twice, and no balance is
/// ever taken below zero: an operation that would do so is refused before
/// anything changes. The accounts stand in a list, which `richest` goes
/// through from end to end; what the ledger means is the map of its view.
///
/// Beside the balances held the ledger keeps the opening balances: what the
/// accounts were given by `insert`, before any transfer. Transfers, rewards
/// and penalties change the balances held and leave the opening balances
/// alone, so that the ledger can be rebuilt for any chain by replaying that
/// chain from the opening balances.
pub struct Ledger {
    accounts: Vec<Account>,
    opening: Vec<Account>,
}

/// Position `i` of `accounts` holds the account `name`.
spec fn holds_at(accounts: Seq<Account>, name: Seq<char>, i: int) -> bool {
    0 <= i < accounts.len() && accounts[i].name@ == name
}

/// No two positions of `accounts` hold the same name.
spec fn names_distinct(accounts: Seq<Account>) -> bool {
    forall|i: int, j: int|
        0 <= i < accounts.len() && 0 <= j < accounts.len() && i != j ==> accounts[i].name@
            != accounts[j].name@
}

/// The balances that a list of accounts stands for.
spec fn balances_of(accounts: Seq<Account>) -> Map<Seq<char>, u64> {
    Map::new(
        |name: Seq<char>| exists|i: int| holds_at(accounts, name, i),
        |name: Seq<char>| accounts[choose|i: int| holds_at(accounts, name, i)].balance,
    )
}

/// The balance of `name` in `balances`: zero for an account that is not there.
pub open spec fn balance_in(balances: Map<Seq<char>, u64>, name: Seq<char>) -> u64 {
    if balances.contains_key(name) {
        balances[name]
    } else {
        0
    }
}

/// The sender of `tx` holds at least amount and fee together.
pub open spec fn covers(balances: Map<Seq<char>, u64>, tx: TransactionView) -> bool {
    balance_in(balances, tx.sender) >= tx.amount + tx.fee
}

/// `balances` after the sender of `tx` has paid amount and fee.
pub open spec fn debited(balances: Map<Seq<char>, u64>, tx: TransactionView) -> Map<
    Seq<char>,
    u64,
> {
    balances.insert(tx.sender, (balance_in(balances, tx.sender) - tx.amount - tx.fee) as u64)
}

/// `tx` can be carried out on `balances`: the sender can pay, and the
/// receiver's balance stays within 64 bits.
pub open spec fn applicable(balances: Map<Seq<char>, u64>, tx: TransactionView) -> bool {
    covers(balances, tx) && balance_in(debited(balances, tx), tx.receiver) + tx.amount
        <= u64::MAX
}

/// `balances` after `tx`: the sender pays amount and fee, the receiver gets
/// the amount, and the fee leaves circulation. A transaction that cannot be
/// carried out changes nothing.
pub open spec fn transfer(balances: Map<Seq<char>, u64>, tx: TransactionView) -> Map<
    Seq<char>,
    u64,
> {
    if applicable(balances, tx) {
        let paid = debited(balances, tx);
        paid.insert(tx.receiver, (balance_in(paid, tx.receiver) + tx.amount) as u64)
    } else {
        balances
    }
}

/// `balances` after the transactions `txs`, taken in order.
pub open spec fn transfer_all(balances: Map<Seq<char>, u64>, txs: Seq<TransactionView>) -> Map<
    Seq<char>,
    u64,
>
    decreases txs.len(),
{
    if txs.len() == 0 {
        balances
    } else {
        transfer(transfer_all(balances, txs.drop_last()), txs.last())
    }
}

/// Those of `txs` whose sender, going by `balances`, holds amount and fee
/// together; their order is kept.
pub open spec fn affordable(balances: Map<Seq<char>, u64>, txs: Seq<TransactionView>) -> Seq<
    TransactionView,
>
    decreases txs.len(),
{
    if txs.len() == 0 {
        Seq::empty()
    } else {
        let rest = affordable(balances, txs.drop_last());
        if covers(balances, txs.last()) {
            rest.push(txs.last())
        } else {
            rest
        }
    }
}

/// `balances` with `amount` added to `name`, capped at the largest balance.
pub open spec fn credited(balances: Map<Seq<char>, u64>, name: Seq<char>, amount: u64) -> Map<
    Seq<char>,
    u64,
> {
    let sum = balance_in(balances, name) + amount;
    balances.insert(
        name,
        if sum > u64::MAX {
            u64::MAX
        } else {
            sum as u64
        },
    )
}

/// `balances` with `amount` taken from `name`, stopping at zero. An account
/// that is not there stays away.
pub open spec fn slashed(balances: Map<Seq<char>, u64>, name: Seq<char>, amount: u64) -> Map<
    Seq<char>,
    u64,
> {
    if balances.contains_key(name) {
        balances.insert(
            name,
            if balances[name] >= amount {
                (balances[name] - amount) as u64
            } else {
                0
            },
        )
    } else {
        balances
    }
}

/// In `balances` the account `first` is at least as good a choice as `other`:
/// it holds more, or it holds as much and its name does not come later.
pub open spec fn outranks(balances: Map<Seq<char>, u64>, first: Seq<char>, other: Seq<char>) -> bool {
    balances[other] < balances[first] || (balances[other] == balances[first] && (other == first
        || name_precedes(first, other)))
}

/// `name` is the account with the highest balance; among several with that
/// balance, the one whose name comes first.
pub open spec fn is_richest(balances: Map<Seq<char>, u64>, name: Seq<char>) -> bool {
    balances.contains_key(name) && forall|other: Seq<char>|
        balances.contains_key(other) ==> outranks(balances, name, other)
}

/// What is put together for a block are exactly the transactions whose
/// sender can pay: every one of them is covered, none that is covered is
/// left out, and their number is the number of covered transactions.
pub proof fn lemma_affordable_are_the_covered(
    balances: Map<Seq<char>, u64>,
    txs: Seq<TransactionView>,
)
    ensures
        affordable(balances, txs) == txs.filter(|tx: TransactionView| covers(balances, tx)),
        forall|i: int|
            0 <= i < affordable(balances, txs).len() ==> covers(
                balances,
                #[trigger] affordable(balances, txs)[i],
            ),
        forall|i: int|
            0 <= i < txs.len() && covers(balances, txs[i]) ==> affordable(balances, txs).contains(
                #[trigger] txs[i],
            ),
        forall|i: int|
            0 <= i < txs.len() && !covers(balances, txs[i]) ==> !affordable(
                balances,
                txs,
            ).contains(#[trigger] txs[i]),
        affordable(balances, txs).len() <= txs.len(),
    decreases txs.len(),
{
    reveal(Seq::filter);
    let kept = affordable(balances, txs);
    if txs.len() > 0 {
        let rest = affordable(balances, txs.drop_last());
        lemma_affordable_are_the_covered(balances, txs.drop_last());
        assert forall|i: int| 0 <= i < txs.len() && covers(balances, txs[i]) implies kept.contains(
            #[trigger] txs[i],
        ) by {
            if i < txs.len() - 1 {
                assert(txs.drop_last()[i] == txs[i]);
                let k = choose|k: int| 0 <= k < rest.len() && rest[k] == txs[i];
                assert(kept[k] == txs[i]);
            } else {
                assert(kept[kept.len() - 1] == txs[i]);
            }
        }
    }
}

/// A transfer between two accounts that can be carried out takes amount and
/// fee from the sender, gives the amount to the receiver and leaves every
/// other account as it was.
pub proof fn lemma_transfer_moves_amount(balances: Map<Seq<char>, u64>, tx: TransactionView)
    requires
        applicable(balances, tx),
        tx.sender != tx.receiver,
    ensures
        balance_in(transfer(balances, tx), tx.sender) == balance_in(balances, tx.sender)
            - tx.amount - tx.fee,
        balance_in(transfer(balances, tx), tx.receiver) == balance_in(balances, tx.receiver)
            + tx.amount,
        forall|other: Seq<char>|
            other != tx.sender && other != tx.receiver ==> balance_in(
                transfer(balances, tx),
                other,
            ) == balance_in(balances, other),
{
}

/// A transaction whose sender cannot pay leaves the balances as they were.
pub proof fn lemma_uncovered_transfer_changes_nothing(
    balances: Map<Seq<char>, u64>,
    tx: TransactionView,
)
    requires
        !covers(balances, tx),
    ensures
        transfer(balances, tx) == balances,
{
}

/// At most one account is the richest.
pub proof fn lemma_richest_is_unique(balances: Map<Seq<char>, u64>, a: Seq<char>, b: Seq<char>)
    requires
        is_richest(balances, a),
        is_richest(balances, b),
    ensures
        a == b,
{
    crate::text::lemma_name_order_strict(a, b);
}

impl View for Ledger {
    type V = Map<Seq<char>, u64>;

    closed spec fn view(&self) -> Map<Seq<char>, u64> {
        balances_of(self.accounts@)
    }
}

/// What a list of distinct accounts stands for, position by position.
proof fn lemma_balances_of(accounts: Seq<Account>)
    requires
        names_distinct(accounts),
    ensures
        forall|i: int|
            0 <= i < accounts.len() ==> balances_of(accounts).contains_key(
                #[trigger] accounts[i].name@,
            ) && balances_of(accounts)[accounts[i].name@] == accounts[i].balance,
        forall|name: Seq<char>| #[trigger]
            balances_of(accounts).contains_key(name) ==> exists|i: int|
                holds_at(accounts, name, i),
        balances_of(accounts).dom().finite(),
{
    assert forall|i: int| 0 <= i < accounts.len() implies balances_of(accounts).contains_key(
        #[trigger] accounts[i].name@,
    ) && balances_of(accounts)[accounts[i].name@] == accounts[i].balance by {
        assert(holds_at(accounts, accounts[i].name@, i));
    }
    lemma_names_finite(accounts);
}

/// The names in a list of accounts are finitely many.
proof fn lemma_names_finite(accounts: Seq<Account>)
    ensures
        balances_of(accounts).dom().finite(),
    decreases accounts.len(),
{
    if accounts.len() == 0 {
        assert(balances_of(accounts).dom() =~= Set::empty());
    } else {
        let shorter = accounts.drop_last();
        lemma_names_finite(shorter);
        assert forall|name: Seq<char>|
            balances_of(accounts).dom().contains(name) <==> balances_of(shorter).dom().insert(
                accounts.last().name@,
            ).contains(name) by {
            if balances_of(accounts).dom().contains(name) {
                let i = choose|i: int| holds_at(accounts, name, i);
                if i < accounts.len() - 1 {
                    assert(holds_at(shorter, name, i));
                }
            }
            if balances_of(shorter).dom().contains(name) {
                let i = choose|i: int| holds_at(shorter, name, i);
                assert(holds_at(accounts, name, i));
            }
            if name == accounts.last().name@ {
                assert(holds_at(accounts, name, accounts.len() - 1));
            }
        }
        assert(balances_of(accounts).dom() =~= balances_of(shorter).dom().insert(
            accounts.last().name@,
        ));
    }
}

/// Where `name` stands in a list of accounts.
fn find(accounts: &Vec<Account>, name: &String) -> (at: Option<usize>)
    ensures
        match at {
            Some(i) => holds_at(accounts@, name@, i as int),
            None => !balances_of(accounts@).contains_key(name@),
        },
{
    let mut i: usize = 0;
    while i < accounts.len()
        invariant
            i <= accounts.len(),
            forall|k: int| 0 <= k < i ==> accounts@[k].name@ != name@,
        decreases accounts.len() - i,
    {
        if accounts[i].name == *name {
            return Some(i);
        }
        i = i + 1;
    }
    None
}

/// Sets the balance of `name` in a list of distinct accounts, and hands back
/// the balance that it had.
fn put(accounts: &mut Vec<Account>, name: String, balance: u64) -> (before: Option<u64>)
    requires
        names_distinct(old(accounts)@),
    ensures
        names_distinct(final(accounts)@),
        balances_of(final(accounts)@) == balances_of(old(accounts)@).insert(name@, balance),
        before == (if balances_of(old(accounts)@).contains_key(name@) {
            Some(balances_of(old(accounts)@)[name@])
        } else {
            None
        }),
{
    proof {
        lemma_balances_of(accounts@);
    }
    let ghost prior = accounts@;
    match find(accounts, &name) {
        Some(i) => {
            let had = accounts[i].balance;
            accounts.set(i, Account { name, balance });
            proof {
                lemma_set_balance(prior, accounts@, i as int);
            }
            Some(had)
        },
        None => {
            accounts.push(Account { name, balance });
            proof {
                assert(accounts@.drop_last() =~= prior);
                lemma_push_account(prior, accounts@);
            }
            None
        },
    }
}

/// Two lists that hold, position by position, the same names with the same
/// balances stand for the same balances.
proof fn lemma_same_accounts(a: Seq<Account>, b: Seq<Account>)
    requires
        names_distinct(a),
        a.len() == b.len(),
        forall|i: int|
            0 <= i < a.len() ==> a[i].name@ == b[i].name@ && a[i].balance == b[i].balance,
    ensures
        names_distinct(b),
        balances_of(a) == balances_of(b),
{
    assert forall|i: int, j: int|
        0 <= i < b.len() && 0 <= j < b.len() && i != j implies b[i].name@ != b[j].name@ by {
        assert(a[i].name@ == b[i].name@);
        assert(a[j].name@ == b[j].name@);
    }
    lemma_balances_of(a);
    lemma_balances_of(b);
    assert forall|name: Seq<char>| balances_of(a).contains_key(name) <==> balances_of(
        b,
    ).contains_key(name) by {
        if balances_of(a).contains_key(name) {
            let i = choose|i: int| holds_at(a, name, i);
            assert(holds_at(b, name, i));
        }
        if balances_of(b).contains_key(name) {
            let i = choose|i: int| holds_at(b, name, i);
            assert(holds_at(a, name, i));
        }
    }
    assert forall|name: Seq<char>| balances_of(a).contains_key(name) implies balances_of(a)[name]
        == balances_of(b)[name] by {
        let i = choose|i: int| holds_at(a, name, i);
        assert(a[i].name@ == name);
        assert(b[i].name@ == name);
    }
    assert(balances_of(a) =~= balances_of(b));
}

impl Ledger {
    #[verifier::type_invariant]
    spec fn distinct(self) -> bool {
        names_distinct(self.accounts@) && names_distinct(self.opening@)
    }

    /// The opening balances: what the accounts were given before any
    /// transfer.
    pub closed spec fn opening(&self) -> Map<Seq<char>, u64> {
        balances_of(self.opening@)
    }

    /// A ledger without accounts.
    pub fn new() -> (ledger: Ledger)
        ensures
            ledger@ == Map::<Seq<char>, u64>::empty(),
            ledger.opening() == Map::<Seq<char>, u64>::empty(),
    {
        let ledger = Ledger { accounts: Vec::new(), opening: Vec::new() };
        assert(ledger@ =~= Map::<Seq<char>, u64>::empty());
        assert(ledger.opening() =~= Map::<Seq<char>, u64>::empty());
        ledger
    }

    /// Where `name` stands in the list of accounts.
    fn position(&self, name: &String) -> (at: Option<usize>)
        ensures
            match at {
                Some(i) => holds_at(self.accounts@, name@, i as int),
                None => !self@.contains_key(name@),
            },
    {
        find(&self.accounts, name)
    }

    /// The opening balance of `account`, if it was given one.
    pub fn opening_balance(&self, account: &str) -> (balance: Option<u64>)
        ensures
            balance == (if self.opening().contains_key(account@) {
                Some(self.opening()[account@])
            } else {
                None
            }),
    {
        proof {
            use_type_invariant(self);
            lemma_balances_of(self.opening@);
        }
        let name = account.to_owned();
        match find(&self.opening, &name) {
            Some(i) => Some(self.opening[i].balance),
            None => None,
        }
    }

    /// Sets the balance that `account` holds and leaves the opening balances
    /// alone.
    fn set_held(&mut self, account: String, balance: u64)
        ensures
            final(self)@ == old(self)@.insert(account@, balance),
            final(self).opening() == old(self).opening(),
    {
        proof {
            use_type_invariant(&*self);
        }
        let mut accounts: Vec<Account> = Vec::new();
        std::mem::swap(&mut accounts, &mut self.accounts);
        put(&mut accounts, account, balance);
        self.accounts = accounts;
    }

    /// Puts the balances held back to the opening balances.
    pub fn restore_opening(&mut self)
        ensures
            final(self)@ == old(self).opening(),
            final(self).opening() == old(self).opening(),
    {
        proof {
            use_type_invariant(&*self);
        }
        let mut accounts: Vec<Account> = Vec::new();
        let mut i: usize = 0;
        while i < self.opening.len()
            invariant
                i <= self.opening.len(),
                accounts.len() == i,
                forall|k: int|
                    0 <= k < i ==> (#[trigger] accounts@[k]).name@ == self.opening@[k].name@
                        && accounts@[k].balance == self.opening@[k].balance,
            decreases self.opening.len() - i,
        {
            accounts.push(
                Account { name: self.opening[i].name.clone(), balance: self.opening[i].balance },
            );
            i = i + 1;
        }
        proof {
            lemma_same_accounts(self.opening@, accounts@);
        }
        self.accounts = accounts;
    }

    /// How many accounts the ledger holds.
    pub fn len(&self) -> (n: usize)
        ensures
            n == self@.dom().len(),
            self@.dom().finite(),
    {
        proof {
            use_type_invariant(self);
            lemma_names_count(self.accounts@);
        }
        self.accounts.len()
    }

    /// The balance of `account`, if the ledger holds that account.
    pub fn get(&self, account: &str) -> (balance: Option<u64>)
        ensures
            balance == (if self@.contains_key(account@) {
                Some(self@[account@])
            } else {
                None
            }),
    {
        proof {
            use_type_invariant(self);
            lemma_balances_of(self.accounts@);
        }
        let name = account.to_owned();
        match self.position(&name) {
            Some(i) => Some(self.accounts[i].balance),
            None => None,
        }
    }

    /// The balance of `account`: zero for an account that is not there.
    pub fn balance_of(&self, account: &str) -> (balance: u64)
        ensures
            balance == balance_in(self@, account@),
    {
        match self.get(account) {
            Some(balance) => balance,
            None => 0,
        }
    }

    /// Gives `account` the balance `balance`, as what it holds and as its
    /// opening balance, and hands back the balance that it held. This is how
    /// accounts are seeded: the chain itself creates no balance.
    pub fn insert(&mut self, account: String, balance: u64) -> (before: Option<u64>)
        ensures
            final(self)@ == old(self)@.insert(account@, balance),
            final(self).opening() == old(self).opening().insert(account@, balance),
            before == (if old(self)@.contains_key(account@) {
                Some(old(self)@[account@])
            } else {
                None
            }),
    {
        proof {
            use_type_invariant(&*self);
        }
        let copy = account.clone();
        let mut opening: Vec<Account> = Vec::new();
        std::mem::swap(&mut opening, &mut self.opening);
        put(&mut opening, copy, balance);
        self.opening = opening;
        let mut accounts: Vec<Account> = Vec::new();
        std::mem::swap(&mut accounts, &mut self.accounts);
        let before = put(&mut accounts, account, balance);
        self.accounts = accounts;
        before
    }

    /// Whether the sender of `tx` holds at least amount and fee together.
    pub fn covers(&self, tx: &Transaction) -> (ok: bool)
        ensures
            ok == covers(self@, tx@),
    {
        let held = self.balance_of(tx.sender.as_str());
        match tx.amount.checked_add(tx.fee) {
            Some(cost) => held >= cost,
            None => false,
        }
    }

    /// Carries out `tx` if that can be done: the sender pays amount and fee,
    /// the receiver gets the amount. Says whether it was done; where it was
    /// not, nothing has changed.
    pub fn apply(&mut self, tx: &Transaction) -> (done: bool)
        ensures
            done == applicable(old(self)@, tx@),
            final(self)@ == transfer(old(self)@, tx@),
            final(self).opening() == old(self).opening(),
    {
        let held = self.balance_of(tx.sender.as_str());
        let cost = match tx.amount.checked_add(tx.fee) {
            Some(cost) => cost,
            None => {
                return false;
            },
        };
        if held < cost {
            return false;
        }
        let left: u64 = held - cost;
        let receiver_held = if tx.sender == tx.receiver {
            left
        } else {
            self.balance_of(tx.receiver.as_str())
        };
        let gained = match receiver_held.checked_add(tx.amount) {
            Some(gained) => gained,
            None => {
                return false;
            },
        };
        self.set_held(tx.sender.clone(), left);
        self.set_held(tx.receiver.clone(), gained);
        true
    }

    /// Carries out the transactions `txs` in order, each one if it can be done
    /// on the balances that the ones before it left.
    pub fn apply_all(&mut self, txs: &Vec<Transaction>)
        ensures
            final(self)@ == transfer_all(old(self)@, tx_views(txs@)),
            final(self).opening() == old(self).opening(),
    {
        let mut i: usize = 0;
        while i < txs.len()
            invariant
                i <= txs.len(),
                self@ == transfer_all(old(self)@, tx_views(txs@).take(i as int)),
                self.opening() == old(self).opening(),
            decreases txs.len() - i,
        {
            self.apply(&txs[i]);
            i = i + 1;
            assert(tx_views(txs@).take(i as int).drop_last() =~= tx_views(txs@).take(i - 1));
        }
        assert(tx_views(txs@).take(i as int) =~= tx_views(txs@));
    }

    /// Adds `amount` to what `account` holds; the account need not exist yet.
    /// The balance stops at the largest value that 64 bits hold. The opening
    /// balances stay, so a rebuild of the ledger leaves the addition out.
    pub fn credit(&mut self, account: &str, amount: u64)
        ensures
            final(self)@ == credited(old(self)@, account@, amount),
            final(self).opening() == old(self).opening(),
    {
        let held = self.balance_of(account);
        self.set_held(account.to_owned(), held.saturating_add(amount));
    }

    /// Takes `amount` from `account`, stopping at zero. An account that the
    /// ledger does not hold is not created.
    pub fn slash(&mut self, account: &str, amount: u64)
        ensures
            final(self)@ == slashed(old(self)@, account@, amount),
            final(self).opening() == old(self).opening(),
    {
        match self.get(account) {
            Some(held) => {
                self.set_held(account.to_owned(), held.saturating_sub(amount));
            },
            None => {},
        }
    }

    /// The account with the highest balance; among several with that balance,
    /// the one whose name comes first. `None` for a ledger without accounts.
    pub fn richest(&self) -> (best: Option<String>)
        ensures
            match best {
                Some(name) => is_richest(self@, name@),
                None => self@ == Map::<Seq<char>, u64>::empty(),
            },
    {
        proof {
            use_type_invariant(self);
            lemma_balances_of(self.accounts@);
        }
        if self.accounts.len() == 0 {
            return None;
        }
        let mut best: usize = 0;
        let mut i: usize = 1;
        while i < self.accounts.len()
            invariant
                names_distinct(self.accounts@),
                best < i <= self.accounts.len(),
                forall|k: int|
                    0 <= k < i ==> outranks(
                        self@,
                        self.accounts@[best as int].name@,
                        #[trigger] self.accounts@[k].name@,
                    ),
                forall|k: int|
                    0 <= k < self.accounts.len() ==> self@.contains_key(
                        #[trigger] self.accounts@[k].name@,
                    ) && self@[self.accounts@[k].name@] == self.accounts@[k].balance,
            decreases self.accounts.len() - i,
        {
            let ghost leader = self.accounts@[best as int].name@;
            let ghost rival = self.accounts@[i as int].name@;
            let held = self.accounts[i].balance;
            let most = self.accounts[best].balance;
            let better = if held > most {
                true
            } else if held == most {
                match compare_names(self.accounts[i].name.as_str(), self.accounts[best].name.as_str()) {
                    NameOrder::Before => true,
                    _ => false,
                }
            } else {
                false
            };
            if better {
                assert forall|k: int| 0 <= k < i + 1 implies outranks(
                    self@,
                    rival,
                    #[trigger] self.accounts@[k].name@,
                ) by {
                    if k < i {
                        let other = self.accounts@[k].name@;
                        if held == most && self@[other] == most && other != leader {
                            lemma_name_order_transitive(rival, leader, other);
                        }
                    }
                }
                best = i;
            }
            i = i + 1;
        }
        Some(self.accounts[best].name.clone())
    }
}

/// A list of distinct accounts holds as many names as it has positions.
proof fn lemma_names_count(accounts: Seq<Account>)
    requires
        names_distinct(accounts),
    ensures
        balances_of(accounts).dom().finite(),
        balances_of(accounts).dom().len() == accounts.len(),
    decreases accounts.len(),
{
    lemma_names_finite(accounts);
    if accounts.len() == 0 {
        assert(balances_of(accounts).dom() =~= Set::empty());
    } else {
        let shorter = accounts.drop_last();
        lemma_names_count(shorter);
        lemma_names_finite(shorter);
        let name = accounts.last().name@;
        assert(!balances_of(shorter).dom().contains(name));
        assert forall|other: Seq<char>|
            balances_of(accounts).dom().contains(other) <==> balances_of(shorter).dom().insert(
                name,
            ).contains(other) by {
            if balances_of(accounts).dom().contains(other) {
                let i = choose|i: int| holds_at(accounts, other, i);
                if i < accounts.len() - 1 {
                    assert(holds_at(shorter, other, i));
                }
            }
            if balances_of(shorter).dom().contains(other) {
                let i = choose|i: int| holds_at(shorter, other, i);
                assert(holds_at(accounts, other, i));
            }
            if other == name {
                assert(holds_at(accounts, other, accounts.len() - 1));
            }
        }
        assert(balances_of(accounts).dom() =~= balances_of(shorter).dom().insert(name));
    }
}

/// Replacing the balance at one position, the name kept, sets that name's
/// balance.
proof fn lemma_set_balance(before: Seq<Account>, after: Seq<Account>, at: int)
    requires
        names_distinct(before),
        0 <= at < before.len(),
        after.len() == before.len(),
        after[at].name@ == before[at].name@,
        forall|k: int| 0 <= k < before.len() && k != at ==> after[k] == before[k],
    ensures
        names_distinct(after),
        balances_of(after) == balances_of(before).insert(after[at].name@, after[at].balance),
{
    lemma_balances_of(before);
    lemma_balances_of(after);
}

/// Adding an account under a new name sets that name's balance.
proof fn lemma_push_account(before: Seq<Account>, after: Seq<Account>)
    requires
        names_distinct(before),
        after.len() == before.len() + 1,
        after.drop_last() == before,
        !balances_of(before).contains_key(after.last().name@),
    ensures
        names_distinct(after),
        balances_of(after) == balances_of(before).insert(after.last().name@, after.last().balance),
{
    let last = after.len() - 1;
    assert forall|i: int, j: int|
        0 <= i < after.len() && 0 <= j < after.len() && i != j implies after[i].name@
        != after[j].name@ by {
        if i < last {
            assert(holds_at(before, before[i].name@, i));
        }
        if j < last {
            assert(holds_at(before, before[j].name@, j));
        }
    }
    lemma_balances_of(before);
    lemma_balances_of(after);
    let target = balances_of(before).insert(after.last().name@, after.last().balance);
    assert forall|name: Seq<char>| balances_of(after).contains_key(name) <==> target.contains_key(
        name,
    ) by {
        if balances_of(after).contains_key(name) {
            let i = choose|i: int| holds_at(after, name, i);
            if i < last {
                assert(holds_at(before, name, i));
            }
        }
    }
    assert forall|name: Seq<char>| balances_of(after).contains_key(name) implies balances_of(
        after,
    )[name] == target[name] by {
        let i = choose|i: int| holds_at(after, name, i);
        if i < last {
            assert(before[i].name@ == name);
        }
    }
}

} // verus!
