use blockchain_core::ledger::Ledger;
use blockchain_core::text::{compare_names, contains, same_text, to_hex, NameOrder};
use blockchain_core::transaction::Transaction;

fn transfer(sender: &str, receiver: &str, amount: u64, fee: u64) -> Transaction {
    Transaction::new(sender.to_string(), receiver.to_string(), amount, fee, 1)
}

#[test]
fn new_ledger_holds_nothing() {
    let ledger = Ledger::new();
    assert_eq!(ledger.len(), 0);
    assert_eq!(ledger.get("Alice"), None);
    assert_eq!(ledger.balance_of("Alice"), 0);
    assert_eq!(ledger.richest(), None);
}

#[test]
fn insert_sets_and_hands_back_the_old_balance() {
    let mut ledger = Ledger::new();
    assert_eq!(ledger.insert("Alice".to_string(), 100), None);
    assert_eq!(ledger.insert("Bob".to_string(), 7), None);
    assert_eq!(ledger.insert("Alice".to_string(), 30), Some(100));
    assert_eq!(ledger.len(), 2);
    assert_eq!(ledger.get("Alice"), Some(30));
    assert_eq!(ledger.get("Bob"), Some(7));
    assert_eq!(ledger.get("alice"), None);
}

#[test]
fn transfer_takes_amount_and_fee_and_gives_the_amount() {
    let mut ledger = Ledger::new();
    ledger.insert("Alice".to_string(), 100);
    let tx = transfer("Alice", "Bob", 50, 1);
    assert!(ledger.covers(&tx));
    assert!(ledger.apply(&tx));
    assert_eq!(ledger.get("Alice"), Some(49));
    assert_eq!(ledger.get("Bob"), Some(50));
}

#[test]
fn transfer_of_the_whole_balance_leaves_zero() {
    let mut ledger = Ledger::new();
    ledger.insert("Alice".to_string(), 51);
    assert!(ledger.apply(&transfer("Alice", "Bob", 50, 1)));
    assert_eq!(ledger.get("Alice"), Some(0));
    assert_eq!(ledger.get("Bob"), Some(50));
}

#[test]
fn transfer_beyond_the_balance_is_refused_before_anything_changes() {
    let mut ledger = Ledger::new();
    ledger.insert("Alice".to_string(), 50);
    let tx = transfer("Alice", "Bob", 50, 1);
    assert!(!ledger.covers(&tx));
    assert!(!ledger.apply(&tx));
    assert_eq!(ledger.get("Alice"), Some(50));
    assert_eq!(ledger.get("Bob"), None);
    assert_eq!(ledger.len(), 1);
}

#[test]
fn transfer_from_an_unknown_sender_is_refused() {
    let mut ledger = Ledger::new();
    assert!(!ledger.apply(&transfer("Nobody", "Bob", 1, 0)));
    assert_eq!(ledger.len(), 0);
}

#[test]
fn amount_and_fee_that_overflow_together_are_never_covered() {
    let mut ledger = Ledger::new();
    ledger.insert("Alice".to_string(), u64::MAX);
    let tx = transfer("Alice", "Bob", u64::MAX, 1);
    assert!(!ledger.covers(&tx));
    assert!(!ledger.apply(&tx));
    assert_eq!(ledger.get("Alice"), Some(u64::MAX));
}

#[test]
fn transfer_that_would_overflow_the_receiver_is_refused() {
    let mut ledger = Ledger::new();
    ledger.insert("Alice".to_string(), 10);
    ledger.insert("Bob".to_string(), u64::MAX - 4);
    assert!(!ledger.apply(&transfer("Alice", "Bob", 5, 0)));
    assert_eq!(ledger.get("Alice"), Some(10));
    assert_eq!(ledger.get("Bob"), Some(u64::MAX - 4));
    assert!(ledger.apply(&transfer("Alice", "Bob", 4, 1)));
    assert_eq!(ledger.get("Alice"), Some(5));
    assert_eq!(ledger.get("Bob"), Some(u64::MAX));
}

#[test]
fn transfer_to_oneself_costs_the_fee() {
    let mut ledger = Ledger::new();
    ledger.insert("Alice".to_string(), 100);
    assert!(ledger.apply(&transfer("Alice", "Alice", 60, 3)));
    assert_eq!(ledger.get("Alice"), Some(97));
    assert_eq!(ledger.len(), 1);
}

#[test]
fn apply_all_goes_in_order_and_passes_over_what_cannot_be_paid() {
    let mut ledger = Ledger::new();
    ledger.insert("Alice".to_string(), 100);
    let txs = vec![
        transfer("Alice", "Bob", 60, 0),
        transfer("Alice", "Carol", 60, 0),
        transfer("Bob", "Carol", 10, 5),
    ];
    ledger.apply_all(&txs);
    assert_eq!(ledger.get("Alice"), Some(40));
    assert_eq!(ledger.get("Bob"), Some(45));
    assert_eq!(ledger.get("Carol"), Some(10));
}

#[test]
fn credit_adds_and_stops_at_the_largest_balance() {
    let mut ledger = Ledger::new();
    ledger.credit("Val", 5);
    assert_eq!(ledger.get("Val"), Some(5));
    ledger.credit("Val", 7);
    assert_eq!(ledger.get("Val"), Some(12));
    ledger.credit("Val", u64::MAX);
    assert_eq!(ledger.get("Val"), Some(u64::MAX));
}

#[test]
fn slash_stops_at_zero_and_creates_no_account() {
    let mut ledger = Ledger::new();
    ledger.insert("Val".to_string(), 10);
    ledger.slash("Val", 4);
    assert_eq!(ledger.get("Val"), Some(6));
    ledger.slash("Val", 7);
    assert_eq!(ledger.get("Val"), Some(0));
    ledger.slash("Ghost", 7);
    assert_eq!(ledger.get("Ghost"), None);
    assert_eq!(ledger.len(), 1);
}

#[test]
fn richest_is_the_highest_balance() {
    let mut ledger = Ledger::new();
    ledger.insert("Alice".to_string(), 10);
    ledger.insert("Bob".to_string(), 30);
    ledger.insert("Carol".to_string(), 20);
    assert_eq!(ledger.richest(), Some("Bob".to_string()));
}

#[test]
fn richest_among_equals_is_the_first_name() {
    let mut ledger = Ledger::new();
    ledger.insert("carol".to_string(), 30);
    ledger.insert("bob".to_string(), 30);
    ledger.insert("bobby".to_string(), 30);
    ledger.insert("alice".to_string(), 5);
    assert_eq!(ledger.richest(), Some("bob".to_string()));
    ledger.insert("Zed".to_string(), 30);
    // upper-case letters come before lower-case ones
    assert_eq!(ledger.richest(), Some("Zed".to_string()));
}

#[test]
fn names_are_ordered_by_their_bytes() {
    assert_eq!(compare_names("abc", "abd"), NameOrder::Before);
    assert_eq!(compare_names("abd", "abc"), NameOrder::After);
    assert_eq!(compare_names("abc", "abc"), NameOrder::Same);
    assert_eq!(compare_names("ab", "abc"), NameOrder::Before);
    assert_eq!(compare_names("", "a"), NameOrder::Before);
    assert_eq!(compare_names("", ""), NameOrder::Same);
    assert_eq!(compare_names("z", "é"), NameOrder::Before);
    assert!(same_text("loop", "loop"));
    assert!(!same_text("loop", "loo"));
}

#[test]
fn contains_finds_a_run_of_bytes() {
    assert!(contains("a loop here", "loop"));
    assert!(contains("loop", "loop"));
    assert!(contains("anything", ""));
    assert!(contains("", ""));
    assert!(!contains("", "x"));
    assert!(!contains("lo op", "loop"));
    assert!(contains("xxloo loop", "loop"));
    assert!(!contains("loo", "loop"));
}

#[test]
fn hexadecimal_is_lower_case_with_two_digits_a_byte() {
    assert_eq!(to_hex(&[]), "");
    assert_eq!(to_hex(&[0x00, 0x0f, 0xa0, 0xff, 0x5c]), "000fa0ff5c");
}

#[test]
fn insert_sets_the_opening_balance_and_transfers_leave_it() {
    let mut ledger = Ledger::new();
    assert_eq!(ledger.opening_balance("Alice"), None);
    ledger.insert("Alice".to_string(), 100);
    ledger.insert("Bob".to_string(), 1);
    assert!(ledger.apply(&transfer("Alice", "Bob", 50, 1)));
    ledger.credit("Carol", 5);
    ledger.slash("Bob", 2);
    assert_eq!(ledger.opening_balance("Alice"), Some(100));
    assert_eq!(ledger.opening_balance("Bob"), Some(1));
    assert_eq!(ledger.opening_balance("Carol"), None);
    assert_eq!(ledger.get("Alice"), Some(49));
    assert_eq!(ledger.get("Bob"), Some(49));
    assert_eq!(ledger.get("Carol"), Some(5));
    ledger.restore_opening();
    assert_eq!(ledger.get("Alice"), Some(100));
    assert_eq!(ledger.get("Bob"), Some(1));
    assert_eq!(ledger.get("Carol"), None);
    assert_eq!(ledger.len(), 2);
    ledger.insert("Alice".to_string(), 30);
    assert_eq!(ledger.opening_balance("Alice"), Some(30));
    assert_eq!(ledger.get("Alice"), Some(30));
}
