use blockchain_core::signature::sign_data;
use blockchain_core::transaction::Transaction;
use ring::rand::SystemRandom;
use ring::signature::{Ed25519KeyPair, KeyPair, UnparsedPublicKey, ED25519};

fn new_keypair() -> Ed25519KeyPair {
    let rng = SystemRandom::new();
    let document = Ed25519KeyPair::generate_pkcs8(&rng).unwrap();
    Ed25519KeyPair::from_pkcs8(document.as_ref()).unwrap()
}

#[test]
fn test_transaction_signature() {
    let rng = SystemRandom::new();
    let keypair = Ed25519KeyPair::generate_pkcs8(&rng).unwrap();
    let keypair = Ed25519KeyPair::from_pkcs8(keypair.as_ref()).unwrap();

    let mut transaction = Transaction::new("Alice".to_string(), "Bob".to_string(), 50, 1, 1);
    transaction.sign(&keypair);

    assert!(transaction.verify(keypair.public_key().as_ref()));
}

#[test]
fn new_transaction_is_unsigned_with_nonce_zero() {
    let transaction = Transaction::new("Alice".to_string(), "Bob".to_string(), 50, 1, 2);
    assert_eq!(transaction.sender, "Alice");
    assert_eq!(transaction.receiver, "Bob");
    assert_eq!(transaction.amount, 50);
    assert_eq!(transaction.fee, 1);
    assert_eq!(transaction.nonce, 0);
    assert_eq!(transaction.required_signatures, 2);
    assert!(transaction.signatures.is_empty());
}

#[test]
fn message_is_sender_receiver_amount_and_fee() {
    let transaction = Transaction::new("Alice".to_string(), "Bob".to_string(), 50, 1, 1);
    assert_eq!(transaction.message(), "AliceBob501");
    let zero = Transaction::new(String::new(), String::new(), 0, 0, 1);
    assert_eq!(zero.message(), "00");
    let large = Transaction::new("a".to_string(), "b".to_string(), u64::MAX, 1234567890, 1);
    assert_eq!(large.message(), "ab184467440737095516151234567890");
}

#[test]
fn sign_attaches_a_signature_of_the_message() {
    let keypair = new_keypair();
    let mut transaction = Transaction::new("Alice".to_string(), "Bob".to_string(), 50, 1, 1);
    transaction.sign(&keypair);
    assert_eq!(transaction.signatures.len(), 1);
    assert_eq!(transaction.signatures[0].len(), 64);
    let key = UnparsedPublicKey::new(&ED25519, keypair.public_key().as_ref());
    assert!(key.verify(b"AliceBob501", &transaction.signatures[0]).is_ok());
    assert!(key.verify(b"AliceBob502", &transaction.signatures[0]).is_err());
}

#[test]
fn sign_data_signs_the_data() {
    let keypair = new_keypair();
    let signature = sign_data(&keypair, b"some data");
    assert_eq!(signature.len(), 64);
    let key = UnparsedPublicKey::new(&ED25519, keypair.public_key().as_ref());
    assert!(key.verify(b"some data", &signature).is_ok());
    assert_ne!(signature, b"some data".to_vec());
}

#[test]
fn verify_refuses_another_key_and_a_changed_transfer() {
    let keypair = new_keypair();
    let other = new_keypair();
    let mut transaction = Transaction::new("Alice".to_string(), "Bob".to_string(), 50, 1, 1);
    transaction.sign(&keypair);
    assert!(!transaction.verify(other.public_key().as_ref()));
    assert!(!transaction.verify(&[1, 2, 3]));
    transaction.amount = 51;
    assert!(!transaction.verify(keypair.public_key().as_ref()));
}

#[test]
fn verify_is_true_without_signatures() {
    let keypair = new_keypair();
    let transaction = Transaction::new("Alice".to_string(), "Bob".to_string(), 50, 1, 1);
    assert!(transaction.verify(keypair.public_key().as_ref()));
}

#[test]
fn add_signature_appends_without_checking() {
    let mut transaction = Transaction::new("Alice".to_string(), "Bob".to_string(), 50, 1, 1);
    transaction.add_signature(vec![1, 2, 3]);
    transaction.add_signature(vec![4]);
    assert_eq!(transaction.signatures, vec![vec![1, 2, 3], vec![4]]);
}

#[test]
fn verify_signatures_pairs_signatures_with_keys_by_position() {
    let first = new_keypair();
    let second = new_keypair();
    let mut transaction = Transaction::new("Alice".to_string(), "Bob".to_string(), 50, 1, 2);
    transaction.sign(&first);
    transaction.sign(&second);
    let a = first.public_key().as_ref().to_vec();
    let b = second.public_key().as_ref().to_vec();
    assert!(transaction.verify_signatures(&[&a[..], &b[..]]));
    assert!(transaction.verify_multi_signature(&[&a[..], &b[..]]));
    assert!(!transaction.verify_signatures(&[&b[..], &a[..]]));
    assert!(!transaction.verify_signatures(&[&a[..]]));
    assert!(!transaction.verify_signatures(&[&a[..], &b[..], &b[..]]));
    assert!(!transaction.verify_multi_signature(&[]));
}

#[test]
fn verify_signatures_of_nothing_by_nobody_is_true() {
    let transaction = Transaction::new("Alice".to_string(), "Bob".to_string(), 50, 1, 1);
    assert!(transaction.verify_signatures(&[]));
}

#[test]
fn one_signature_where_two_are_required_is_not_full_authorization() {
    let first = new_keypair();
    let mut transaction = Transaction::new("Alice".to_string(), "Bob".to_string(), 50, 1, 2);
    transaction.sign(&first);
    let a = first.public_key().as_ref().to_vec();
    assert!(transaction.verify_signatures(&[&a[..]]));
    assert!(!transaction.is_fully_signed());
    assert!(!transaction.is_fully_authorized(&[&a[..]]));
}

#[test]
fn two_valid_signatures_under_two_keys_are_full_authorization() {
    let first = new_keypair();
    let second = new_keypair();
    let mut transaction = Transaction::new("Alice".to_string(), "Bob".to_string(), 50, 1, 2);
    transaction.sign(&first);
    transaction.sign(&second);
    let a = first.public_key().as_ref().to_vec();
    let b = second.public_key().as_ref().to_vec();
    assert!(transaction.is_fully_signed());
    assert!(transaction.is_fully_authorized(&[&a[..], &b[..]]));
}

#[test]
fn the_same_key_twice_is_not_full_authorization() {
    let first = new_keypair();
    let mut transaction = Transaction::new("Alice".to_string(), "Bob".to_string(), 50, 1, 2);
    transaction.sign(&first);
    transaction.sign(&first);
    let a = first.public_key().as_ref().to_vec();
    assert!(transaction.is_fully_signed());
    assert!(transaction.verify_signatures(&[&a[..], &a[..]]));
    assert!(!transaction.is_fully_authorized(&[&a[..], &a[..]]));
}

#[test]
fn is_fully_signed_counts_signatures() {
    let mut transaction = Transaction::new("Alice".to_string(), "Bob".to_string(), 50, 1, 2);
    assert!(!transaction.is_fully_signed());
    transaction.add_signature(vec![0; 64]);
    assert!(!transaction.is_fully_signed());
    transaction.add_signature(vec![0; 64]);
    assert!(transaction.is_fully_signed());
    transaction.add_signature(vec![0; 64]);
    assert!(transaction.is_fully_signed());
    let none = Transaction::new("Alice".to_string(), "Bob".to_string(), 50, 1, 0);
    assert!(none.is_fully_signed());
}

#[test]
fn equality_looks_at_sender_receiver_and_amount() {
    let keypair = new_keypair();
    let plain = Transaction::new("Alice".to_string(), "Bob".to_string(), 50, 1, 1);
    let mut signed = Transaction::new("Alice".to_string(), "Bob".to_string(), 50, 9, 3);
    signed.sign(&keypair);
    signed.nonce = 4;
    assert_eq!(plain, signed);
    assert_ne!(plain, Transaction::new("Alice".to_string(), "Bob".to_string(), 51, 1, 1));
    assert_ne!(plain, Transaction::new("Alice".to_string(), "Bo".to_string(), 50, 1, 1));
    assert_ne!(plain, Transaction::new("Alic".to_string(), "Bob".to_string(), 50, 1, 1));
}

#[test]
fn clone_copies_every_field() {
    let keypair = new_keypair();
    let mut transaction = Transaction::new("Alice".to_string(), "Bob".to_string(), 50, 1, 2);
    transaction.nonce = 9;
    transaction.sign(&keypair);
    let copy = transaction.clone();
    assert_eq!(copy.sender, "Alice");
    assert_eq!(copy.receiver, "Bob");
    assert_eq!(copy.amount, 50);
    assert_eq!(copy.fee, 1);
    assert_eq!(copy.nonce, 9);
    assert_eq!(copy.required_signatures, 2);
    assert_eq!(copy.signatures, transaction.signatures);
}
