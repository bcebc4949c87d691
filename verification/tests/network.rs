use blockchain_core::block::Block;
use blockchain_core::blockchain::Blockchain;
use blockchain_core::network::{handle_message, take_frame, Message, Network};
use blockchain_core::transaction::Transaction;

fn sorted(mut items: Vec<String>) -> Vec<String> {
    items.sort();
    items
}

fn grown(blocks: usize) -> Blockchain {
    let mut blockchain = Blockchain::new();
    let mut made: usize = 0;
    while made < blocks {
        blockchain.add_block(false).unwrap();
        made += 1;
    }
    blockchain
}

#[test]
fn new_network_knows_nobody() {
    let network = Network::new();
    assert_eq!(network.peer_count(), 0);
    assert!(network.peers().is_empty());
    assert!(!network.knows("127.0.0.1:8080"));
}

#[test]
fn add_peer_is_idempotent() {
    let mut network = Network::new();
    network.add_peer("10.0.0.1:8080".to_string());
    network.add_peer("10.0.0.2:8080".to_string());
    network.add_peer("10.0.0.1:8080".to_string());
    assert_eq!(network.peer_count(), 2);
    assert!(network.knows("10.0.0.1:8080"));
    assert!(network.knows("10.0.0.2:8080"));
    assert!(!network.knows("10.0.0.3:8080"));
    assert_eq!(
        sorted(network.peers()),
        vec!["10.0.0.1:8080".to_string(), "10.0.0.2:8080".to_string()]
    );
}

#[test]
fn discover_asks_every_known_peer_and_merge_adds_what_they_know() {
    let mut network = Network::new();
    network.add_peer("a".to_string());
    network.add_peer("b".to_string());
    assert_eq!(sorted(network.discover_peers()), vec!["a".to_string(), "b".to_string()]);
    network.merge_peers(vec!["c".to_string(), "a".to_string(), "c".to_string()]);
    assert_eq!(network.peer_count(), 3);
    assert_eq!(
        sorted(network.peers()),
        vec!["a".to_string(), "b".to_string(), "c".to_string()]
    );
    network.merge_peers(Vec::new());
    assert_eq!(network.peer_count(), 3);
}

#[test]
fn broadcast_makes_one_delivery_for_each_peer() {
    let mut network = Network::new();
    assert!(network.broadcast_message("hello").is_empty());
    network.add_peer("a".to_string());
    network.add_peer("b".to_string());
    let mut deliveries = network.broadcast_message("hello");
    deliveries.sort();
    assert_eq!(
        deliveries,
        vec![
            ("a".to_string(), "hello".to_string()),
            ("b".to_string(), "hello".to_string())
        ]
    );
}

#[test]
fn synchronize_adopts_the_longer_chains_of_known_peers_in_turn() {
    let mut network = Network::new();
    network.add_peer("a".to_string());
    network.add_peer("b".to_string());
    let mut local = grown(1);
    let three: Vec<Block> = grown(2).chain.clone();
    let five: Vec<Block> = grown(4).chain.clone();
    let nine: Vec<Block> = grown(8).chain.clone();
    let adopted = network.synchronize(
        &mut local,
        vec![
            ("a".to_string(), three),
            ("stranger".to_string(), nine),
            ("b".to_string(), five.clone()),
            ("a".to_string(), grown(3).chain.clone()),
        ],
    );
    assert_eq!(adopted, 2);
    assert_eq!(local.chain.len(), 5);
    assert_eq!(local.chain[4].hash, five[4].hash);
    assert!(local.is_chain_valid());
}

#[test]
fn synchronize_with_nothing_fetched_changes_nothing() {
    let network = Network::new();
    let mut local = grown(2);
    local.balances.insert("Alice".to_string(), 5);
    assert_eq!(network.synchronize(&mut local, Vec::new()), 0);
    assert_eq!(local.chain.len(), 3);
    assert_eq!(local.balances.get("Alice"), Some(5));
}

#[test]
fn synchronize_passes_over_an_invalid_chain() {
    let mut network = Network::new();
    network.add_peer("a".to_string());
    let mut local = grown(1);
    let mut forged: Vec<Block> = grown(3).chain.clone();
    forged[2].data = "[{\"sender\":\"Mallory\",\"receiver\":\"Mallory\",\"amount\":1,\"fee\":0,\"nonce\":0,\"required_signatures\":1}]".to_string();
    assert_eq!(network.synchronize(&mut local, vec![("a".to_string(), forged)]), 0);
    assert_eq!(local.chain.len(), 2);
}

#[test]
fn a_transaction_from_a_peer_goes_to_the_queue() {
    let mut local = grown(0);
    let unfunded = Transaction::new("Alice".to_string(), "Bob".to_string(), 5, 1, 1);
    assert!(handle_message(&mut local, Message::NewTransaction(unfunded)));
    assert_eq!(local.transaction_pool.len(), 1);
    let empty = Transaction::new("Alice".to_string(), "Bob".to_string(), 0, 1, 1);
    assert!(!handle_message(&mut local, Message::NewTransaction(empty)));
    assert_eq!(local.transaction_pool.len(), 1);
    // The sender holds nothing, so the transaction stays out of the block.
    local.add_block(false).unwrap();
    assert_eq!(local.chain[1].data, "[]");
}

#[test]
fn a_chain_from_a_peer_is_put_to_the_fork_rule() {
    let mut local = grown(1);
    let same: Vec<Block> = grown(1).chain.clone();
    assert!(!handle_message(&mut local, Message::CandidateChain(same)));
    let longer: Vec<Block> = grown(2).chain.clone();
    assert!(handle_message(&mut local, Message::CandidateChain(longer)));
    assert_eq!(local.chain.len(), 3);
}

#[test]
fn two_adoptions_in_one_pass_leave_the_balances_of_the_last_chain() {
    let mut network = Network::new();
    network.add_peer("a".to_string());
    let mut local = grown(0);
    local.balances.insert("Alice".to_string(), 100);
    local.add_transaction(Transaction::new("Alice".to_string(), "Bob".to_string(), 10, 0, 1));
    local.add_block(false).unwrap();

    let mut peer = grown(0);
    peer.balances.insert("Alice".to_string(), 100);
    peer.add_transaction(Transaction::new("Alice".to_string(), "Bob".to_string(), 10, 0, 1));
    peer.add_block(false).unwrap();
    peer.add_block(false).unwrap();
    let three: Vec<Block> = peer.chain.clone();
    peer.add_transaction(Transaction::new("Alice".to_string(), "Carol".to_string(), 5, 1, 1));
    peer.add_block(false).unwrap();
    let four: Vec<Block> = peer.chain.clone();

    let adopted = network.synchronize(
        &mut local,
        vec![("a".to_string(), three), ("a".to_string(), four)],
    );
    assert_eq!(adopted, 2);
    assert_eq!(local.chain.len(), 4);
    assert_eq!(local.balances.get("Alice"), Some(84));
    assert_eq!(local.balances.get("Bob"), Some(10));
    assert_eq!(local.balances.get("Carol"), Some(5));
}

#[test]
fn frames_end_at_line_ends() {
    let mut pending: Vec<u8> = b"one\n\ntwo\nthr".to_vec();
    assert_eq!(take_frame(&mut pending), Some(b"one".to_vec()));
    assert_eq!(pending, b"\ntwo\nthr".to_vec());
    assert_eq!(take_frame(&mut pending), Some(Vec::new()));
    assert_eq!(take_frame(&mut pending), Some(b"two".to_vec()));
    assert_eq!(take_frame(&mut pending), None);
    assert_eq!(pending, b"thr".to_vec());
    pending.extend_from_slice(b"ee\n");
    assert_eq!(take_frame(&mut pending), Some(b"three".to_vec()));
    assert!(pending.is_empty());
    assert_eq!(take_frame(&mut pending), None);
}
