//! Transfers, their signatures, and the queue of pending transfers.

use crate::signature::{ed25519_valid, ed25519_verify, sign_data};
use crate::text::{append_decimal, decimal};
use ring::signature::Ed25519KeyPair;
use std::collections::VecDeque;
use vstd::prelude::*;
use vstd::std_specs::cmp::PartialEqSpecImpl;
use vstd::string::*;

verus! {

/// A request to move `amount` from `sender` to `receiver`, for which the
/// sender pays `fee` on top. `signatures` holds Ed25519 signatures of the
/// transfer's message, each as its 64 bytes.
#[derive(Debug)]
pub struct Transaction {
    pub sender: String,
    pub receiver: String,
    pub amount: u64,
    pub fee: u64,
    pub nonce: u64,
    pub signatures: Vec<Vec<u8>>,
    pub required_signatures: usize,
}

/// A transaction as contracts see it.
pub struct TransactionView {
    pub sender: Seq<char>,
    pub receiver: Seq<char>,
    pub amount: u64,
    pub fee: u64,
    pub nonce: u64,
    pub signatures: Seq<Seq<u8>>,
    pub required_signatures: usize,
}

/// The byte strings that a sequence of vectors holds.
pub open spec fn byte_views(items: Seq<Vec<u8>>) -> Seq<Seq<u8>> {
    Seq::new(items.len(), |i: int| items[i]@)
}

impl View for Transaction {
    type V = TransactionView;

    open spec fn view(&self) -> TransactionView {
        TransactionView {
            sender: self.sender@,
            receiver: self.receiver@,
            amount: self.amount,
            fee: self.fee,
            nonce: self.nonce,
            signatures: byte_views(self.signatures@),
            required_signatures: self.required_signatures,
        }
    }
}

impl TransactionView {
    /// The text that a signer signs: sender, receiver, amount and fee, written
    /// one after the other, the numbers in decimal.
    pub open spec fn message(self) -> Seq<char> {
        self.sender + self.receiver + decimal(self.amount as nat) + decimal(self.fee as nat)
    }

    /// The signed text as bytes.
    pub open spec fn message_bytes(self) -> Seq<u8> {
        vstd::utf8::encode_utf8(self.message())
    }

    /// As many signatures are attached as the transaction asks for.
    pub open spec fn fully_signed(self) -> bool {
        self.signatures.len() >= self.required_signatures
    }

    /// Every attached signature is valid under the one key `public_key`.
    pub open spec fn all_signed_by(self, public_key: Seq<u8>) -> bool {
        forall|i: int|
            0 <= i < self.signatures.len() ==> ed25519_valid(
                public_key,
                self.message_bytes(),
                #[trigger] self.signatures[i],
            )
    }

    /// There is one key for each signature, and the signature at each
    /// position is valid under the key at the same position.
    pub open spec fn signed_by_each(self, public_keys: Seq<Seq<u8>>) -> bool {
        &&& self.signatures.len() == public_keys.len()
        &&& forall|i: int|
            0 <= i < self.signatures.len() ==> ed25519_valid(
                #[trigger] public_keys[i],
                self.message_bytes(),
                self.signatures[i],
            )
    }

    /// The transaction is fully authorized by `public_keys`: it carries as
    /// many signatures as it asks for, there is one key for each signature,
    /// no key is named twice, and each signature is valid under the key at
    /// its own position.
    pub open spec fn fully_authorized(self, public_keys: Seq<Seq<u8>>) -> bool {
        self.fully_signed() && keys_distinct(public_keys) && self.signed_by_each(public_keys)
    }

    /// The same transfer with one more signature at the end.
    pub open spec fn with_signature(self, signature: Seq<u8>) -> TransactionView {
        TransactionView {
            sender: self.sender,
            receiver: self.receiver,
            amount: self.amount,
            fee: self.fee,
            nonce: self.nonce,
            signatures: self.signatures.push(signature),
            required_signatures: self.required_signatures,
        }
    }
}

/// The transactions of a sequence, each by its view.
pub open spec fn tx_views(txs: Seq<Transaction>) -> Seq<TransactionView> {
    Seq::new(txs.len(), |i: int| txs[i]@)
}

/// No key occurs twice in `keys`.
pub open spec fn keys_distinct(keys: Seq<Seq<u8>>) -> bool {
    forall|i: int, j: int| 0 <= i < j < keys.len() ==> keys[i] != keys[j]
}

/// The keys that a slice of key slices holds.
pub open spec fn key_views(keys: Seq<&[u8]>) -> Seq<Seq<u8>> {
    Seq::new(keys.len(), |i: int| keys[i]@)
}

/// Whether two byte strings are the same.
pub fn same_bytes(a: &[u8], b: &[u8]) -> (same: bool)
    ensures
        same == (a@ == b@),
{
    if a.len() != b.len() {
        return false;
    }
    let mut i: usize = 0;
    while i < a.len()
        invariant
            i <= a.len(),
            a.len() == b.len(),
            forall|k: int| 0 <= k < i ==> a@[k] == b@[k],
        decreases a.len() - i,
    {
        if a[i] != b[i] {
            return false;
        }
        i = i + 1;
    }
    assert(a@ =~= b@);
    true
}

/// Whether no key occurs twice among `keys`.
pub fn all_keys_distinct(keys: &[&[u8]]) -> (distinct: bool)
    ensures
        distinct == keys_distinct(key_views(keys@)),
{
    let mut j: usize = 0;
    while j < keys.len()
        invariant
            j <= keys.len(),
            forall|a: int, b: int|
                0 <= a < b < j ==> key_views(keys@)[a] != key_views(keys@)[b],
        decreases keys.len() - j,
    {
        let mut i: usize = 0;
        while i < j
            invariant
                i <= j,
                j < keys.len(),
                forall|a: int| 0 <= a < i ==> key_views(keys@)[a] != key_views(keys@)[j as int],
            decreases j - i,
        {
            if same_bytes(keys[i], keys[j]) {
                assert(key_views(keys@)[i as int] == key_views(keys@)[j as int]);
                return false;
            }
            i = i + 1;
        }
        j = j + 1;
    }
    true
}

impl Transaction {
    /// An unsigned transfer with nonce 0.
    pub fn new(
        sender: String,
        receiver: String,
        amount: u64,
        fee: u64,
        required_signatures: usize,
    ) -> (tx: Transaction)
        ensures
            tx@ == (TransactionView {
                sender: sender@,
                receiver: receiver@,
                amount: amount,
                fee: fee,
                nonce: 0,
                signatures: Seq::empty(),
                required_signatures: required_signatures,
            }),
    {
        let tx = Transaction {
            sender,
            receiver,
            amount,
            fee,
            nonce: 0,
            signatures: Vec::new(),
            required_signatures,
        };
        assert(tx@.signatures =~= Seq::empty());
        tx
    }

    /// The text that signers sign.
    pub fn message(&self) -> (text: String)
        ensures
            text@ == self@.message(),
    {
        let mut text = String::new();
        text.append(self.sender.as_str());
        text.append(self.receiver.as_str());
        append_decimal(&mut text, self.amount as u128);
        append_decimal(&mut text, self.fee as u128);
        text
    }

    /// Signs the transfer's message with `keypair` and attaches the signature.
    pub fn sign(&mut self, keypair: &Ed25519KeyPair)
        ensures
            exists|signature: Seq<u8>|
                signature.len() == 64 && final(self)@ == old(self)@.with_signature(signature),
    {
        let message = self.message();
        let signature = sign_data(keypair, message.as_str().as_bytes());
        self.add_signature(signature);
    }

    /// Attaches `signature` after those already there. Nothing is checked.
    pub fn add_signature(&mut self, signature: Vec<u8>)
        ensures
            final(self)@ == old(self)@.with_signature(signature@),
    {
        self.signatures.push(signature);
        assert(self@.signatures =~= old(self)@.signatures.push(signature@));
    }

    /// Whether every attached signature is valid under `public_key`. True of
    /// a transaction without signatures.
    pub fn verify(&self, public_key: &[u8]) -> (ok: bool)
        ensures
            ok == self@.all_signed_by(public_key@),
    {
        let message = self.message();
        let bytes = message.as_str().as_bytes();
        let mut i: usize = 0;
        while i < self.signatures.len()
            invariant
                i <= self.signatures.len(),
                bytes@ == self@.message_bytes(),
                forall|k: int|
                    0 <= k < i ==> ed25519_valid(
                        public_key@,
                        self@.message_bytes(),
                        #[trigger] self@.signatures[k],
                    ),
            decreases self.signatures.len() - i,
        {
            if !ed25519_verify(public_key, bytes, self.signatures[i].as_slice()) {
                assert(self@.signatures[i as int] == self.signatures[i as int]@);
                return false;
            }
            i = i + 1;
        }
        true
    }

    /// Whether there is one key per signature and each signature is valid
    /// under the key at its own position.
    pub fn verify_signatures(&self, public_keys: &[&[u8]]) -> (ok: bool)
        ensures
            ok == self@.signed_by_each(key_views(public_keys@)),
    {
        if self.signatures.len() != public_keys.len() {
            return false;
        }
        let message = self.message();
        let bytes = message.as_str().as_bytes();
        let mut i: usize = 0;
        while i < self.signatures.len()
            invariant
                i <= self.signatures.len(),
                self.signatures.len() == public_keys.len(),
                bytes@ == self@.message_bytes(),
                forall|k: int|
                    0 <= k < i ==> ed25519_valid(
                        #[trigger] key_views(public_keys@)[k],
                        self@.message_bytes(),
                        self@.signatures[k],
                    ),
            decreases self.signatures.len() - i,
        {
            assert(key_views(public_keys@)[i as int] == public_keys@[i as int]@);
            if !ed25519_verify(public_keys[i], bytes, self.signatures[i].as_slice()) {
                return false;
            }
            i = i + 1;
        }
        true
    }

    /// Whether exactly one signature is attached and it is valid under
    /// `public_key`.
    pub fn verify_single(&self, public_key: &[u8]) -> (ok: bool)
        ensures
            ok == self@.signed_by_each(seq![public_key@]),
    {
        if self.signatures.len() != 1 {
            return false;
        }
        let message = self.message();
        let ok = ed25519_verify(
            public_key,
            message.as_str().as_bytes(),
            self.signatures[0].as_slice(),
        );
        assert(seq![public_key@][0] == public_key@);
        ok
    }

    /// The same check as `verify_signatures`.
    pub fn verify_multi_signature(&self, public_keys: &[&[u8]]) -> (ok: bool)
        ensures
            ok == self@.signed_by_each(key_views(public_keys@)),
    {
        self.verify_signatures(public_keys)
    }

    /// Whether the transaction is fully authorized by `public_keys`: see
    /// `TransactionView::fully_authorized`.
    pub fn is_fully_authorized(&self, public_keys: &[&[u8]]) -> (ok: bool)
        ensures
            ok == self@.fully_authorized(key_views(public_keys@)),
    {
        self.is_fully_signed() && all_keys_distinct(public_keys) && self.verify_signatures(
            public_keys,
        )
    }

    /// Whether as many signatures are attached as the transaction asks for.
    pub fn is_fully_signed(&self) -> (ok: bool)
        ensures
            ok == self@.fully_signed(),
    {
        self.signatures.len() >= self.required_signatures
    }
}

impl Clone for Transaction {
    fn clone(&self) -> (copy: Self)
        ensures
            copy@ == self@,
    {
        let mut signatures: Vec<Vec<u8>> = Vec::new();
        let mut i: usize = 0;
        while i < self.signatures.len()
            invariant
                i <= self.signatures.len(),
                signatures.len() == i,
                byte_views(signatures@) == byte_views(self.signatures@).take(i as int),
            decreases self.signatures.len() - i,
        {
            let signature = self.signatures[i].clone();
            signatures.push(signature);
            i = i + 1;
        }
        assert(byte_views(self.signatures@).take(i as int) =~= byte_views(self.signatures@));
        Transaction {
            sender: self.sender.clone(),
            receiver: self.receiver.clone(),
            amount: self.amount,
            fee: self.fee,
            nonce: self.nonce,
            signatures,
            required_signatures: self.required_signatures,
        }
    }
}

impl PartialEq for Transaction {
    /// Two transactions are the same transfer when sender, receiver and
    /// amount agree; signatures play no part.
    fn eq(&self, other: &Self) -> (same: bool) {
        self.sender == other.sender && self.receiver == other.receiver && self.amount
            == other.amount
    }
}

impl PartialEqSpecImpl for Transaction {
    open spec fn obeys_eq_spec() -> bool {
        true
    }

    open spec fn eq_spec(&self, other: &Self) -> bool {
        self.sender@ == other.sender@ && self.receiver@ == other.receiver@ && self.amount
            == other.amount
    }
}

/// No transaction of `txs` stands before one with a higher fee.
pub open spec fn fee_sorted(txs: Seq<TransactionView>) -> bool {
    forall|i: int, j: int| 0 <= i < j < txs.len() ==> txs[i].fee >= txs[j].fee
}

/// The transactions of `txs` whose fee is `fee`, in their order.
pub open spec fn with_fee(txs: Seq<TransactionView>, fee: u64) -> Seq<TransactionView>
    decreases txs.len(),
{
    if txs.len() == 0 {
        Seq::empty()
    } else if txs.last().fee == fee {
        with_fee(txs.drop_last(), fee).push(txs.last())
    } else {
        with_fee(txs.drop_last(), fee)
    }
}

/// `sorted` is `unsorted` in the order of fee priority: highest fee first,
/// and transactions with the same fee in the order that they had.
pub open spec fn is_fee_priority_of(
    sorted: Seq<TransactionView>,
    unsorted: Seq<TransactionView>,
) -> bool {
    &&& sorted.len() == unsorted.len()
    &&& fee_sorted(sorted)
    &&& forall|fee: u64| with_fee(sorted, fee) == with_fee(unsorted, fee)
}

/// Picking the transactions with one fee goes through a concatenation.
pub proof fn lemma_with_fee_concat(a: Seq<TransactionView>, b: Seq<TransactionView>, fee: u64)
    ensures
        with_fee(a + b, fee) == with_fee(a, fee) + with_fee(b, fee),
    decreases b.len(),
{
    if b.len() > 0 {
        assert((a + b).drop_last() =~= a + b.drop_last());
        lemma_with_fee_concat(a, b.drop_last(), fee);
    }
}

/// Where no transaction has the fee, none is picked.
pub proof fn lemma_with_fee_none(txs: Seq<TransactionView>, fee: u64)
    requires
        forall|i: int| 0 <= i < txs.len() ==> txs[i].fee != fee,
    ensures
        with_fee(txs, fee) == Seq::<TransactionView>::empty(),
    decreases txs.len(),
{
    if txs.len() > 0 {
        lemma_with_fee_none(txs.drop_last(), fee);
    }
}

/// Putting `tx` into a fee-sorted sequence behind all transactions with at
/// least its fee and before all with a lower fee keeps the sequence sorted,
/// adds `tx` at the end of those with its fee, and leaves the others as they
/// were.
pub proof fn lemma_insert_by_fee(txs: Seq<TransactionView>, at: int, tx: TransactionView)
    requires
        fee_sorted(txs),
        0 <= at <= txs.len(),
        forall|i: int| 0 <= i < at ==> txs[i].fee >= tx.fee,
        forall|i: int| at <= i < txs.len() ==> txs[i].fee < tx.fee,
    ensures
        fee_sorted(txs.insert(at, tx)),
        with_fee(txs.insert(at, tx), tx.fee) == with_fee(txs, tx.fee).push(tx),
        forall|fee: u64| fee != tx.fee ==> with_fee(txs.insert(at, tx), fee) == with_fee(txs, fee),
{
    let front = txs.take(at);
    let back = txs.skip(at);
    let grown = txs.insert(at, tx);
    assert(grown =~= front + seq![tx] + back);
    assert(txs =~= front + back);
    assert forall|fee: u64| true implies with_fee(grown, fee) == with_fee(front, fee) + with_fee(
        seq![tx],
        fee,
    ) + with_fee(back, fee) && with_fee(txs, fee) == with_fee(front, fee) + with_fee(back, fee) by {
        lemma_with_fee_concat(front + seq![tx], back, fee);
        lemma_with_fee_concat(front, seq![tx], fee);
        lemma_with_fee_concat(front, back, fee);
    }
    lemma_with_fee_none(back, tx.fee);
    assert(with_fee(seq![tx].drop_last(), tx.fee) =~= Seq::<TransactionView>::empty());
    assert forall|fee: u64| fee != tx.fee implies with_fee(grown, fee) == with_fee(txs, fee) by {
        assert(with_fee(seq![tx].drop_last(), fee) =~= Seq::<TransactionView>::empty());
    }
}

/// Where some transaction is picked for a fee, a transaction with that fee
/// is there.
proof fn lemma_with_fee_witness(txs: Seq<TransactionView>, fee: u64)
    requires
        with_fee(txs, fee).len() > 0,
    ensures
        exists|i: int| 0 <= i < txs.len() && txs[i].fee == fee,
    decreases txs.len(),
{
    if txs.len() > 0 && txs.last().fee != fee {
        lemma_with_fee_witness(txs.drop_last(), fee);
    }
}

/// The order of fee priority is fixed by the transactions and the order in
/// which they came: two fee-sorted sequences that hold, for every fee, the
/// same transactions in the same order are the same sequence.
pub proof fn lemma_fee_priority_unique(a: Seq<TransactionView>, b: Seq<TransactionView>)
    requires
        fee_sorted(a),
        fee_sorted(b),
        forall|fee: u64| with_fee(a, fee) == with_fee(b, fee),
    ensures
        a == b,
    decreases a.len() + b.len(),
{
    if a.len() == 0 && b.len() > 0 {
        assert(with_fee(b, b.last().fee).len() > 0);
        assert(with_fee(a, b.last().fee).len() == 0);
    } else if b.len() == 0 && a.len() > 0 {
        assert(with_fee(a, a.last().fee).len() > 0);
        assert(with_fee(b, a.last().fee).len() == 0);
    } else if a.len() > 0 {
        let low = a.last().fee;
        let other = b.last().fee;
        assert(with_fee(a, low).last() == a.last());
        assert(with_fee(b, other).last() == b.last());
        assert(with_fee(b, low).len() > 0);
        lemma_with_fee_witness(b, low);
        let j = choose|j: int| 0 <= j < b.len() && b[j].fee == low;
        assert(b[j].fee >= b[b.len() - 1].fee);
        assert(with_fee(a, other).len() > 0);
        lemma_with_fee_witness(a, other);
        let k = choose|k: int| 0 <= k < a.len() && a[k].fee == other;
        assert(a[k].fee >= a[a.len() - 1].fee);
        assert(low == other);
        assert(a.last() == b.last());
        assert forall|fee: u64| with_fee(a.drop_last(), fee) == with_fee(b.drop_last(), fee) by {
            assert(with_fee(a, fee) == with_fee(b, fee));
            if fee == low {
                assert(with_fee(a.drop_last(), fee) =~= with_fee(a, fee).drop_last());
                assert(with_fee(b.drop_last(), fee) =~= with_fee(b, fee).drop_last());
            }
        }
        lemma_fee_priority_unique(a.drop_last(), b.drop_last());
        assert(a =~= a.drop_last().push(a.last()));
        assert(b =~= b.drop_last().push(b.last()));
    }
}

/// A transaction occurs in a sequence as often as among the transactions of
/// the sequence that have its fee.
proof fn lemma_count_by_fee(txs: Seq<TransactionView>, tx: TransactionView)
    ensures
        txs.to_multiset().count(tx) == with_fee(txs, tx.fee).to_multiset().count(tx),
    decreases txs.len(),
{
    if txs.len() == 0 {
        assert(with_fee(txs, tx.fee) =~= txs);
    } else {
        let front = txs.drop_last();
        lemma_count_by_fee(front, tx);
        assert(txs =~= front.push(txs.last()));
        front.to_multiset_ensures();
        with_fee(front, tx.fee).to_multiset_ensures();
    }
}

/// The order of fee priority moves transactions and neither adds nor drops
/// one: the sorted queue holds every transaction as often as the queue that
/// was sorted.
pub proof fn lemma_fee_priority_is_permutation(
    sorted: Seq<TransactionView>,
    unsorted: Seq<TransactionView>,
)
    requires
        is_fee_priority_of(sorted, unsorted),
    ensures
        sorted.to_multiset() == unsorted.to_multiset(),
{
    assert forall|tx: TransactionView|
        sorted.to_multiset().count(tx) == unsorted.to_multiset().count(tx) by {
        lemma_count_by_fee(sorted, tx);
        lemma_count_by_fee(unsorted, tx);
    }
    assert(sorted.to_multiset() =~= unsorted.to_multiset());
}

/// Orders `txs` by fee priority: highest fee first, and transactions with
/// the same fee in the order that they had.
pub fn sort_by_fee(txs: Vec<Transaction>) -> (sorted: Vec<Transaction>)
    ensures
        is_fee_priority_of(tx_views(sorted@), tx_views(txs@)),
{
    let mut txs = txs;
    let ghost unsorted = tx_views(txs@);
    let total = txs.len();
    let mut sorted: Vec<Transaction> = Vec::new();
    let mut done: usize = 0;
    while done < total
        invariant
            done <= total,
            total == unsorted.len(),
            sorted.len() == done,
            txs.len() == total - done,
            tx_views(txs@) == unsorted.skip(done as int),
            fee_sorted(tx_views(sorted@)),
            forall|fee: u64| with_fee(tx_views(sorted@), fee) == with_fee(unsorted.take(done as int), fee),
        decreases total - done,
    {
        let ghost waiting = tx_views(txs@);
        let tx = txs.remove(0);
        assert(tx@ == unsorted[done as int]) by {
            assert(waiting[0] == unsorted.skip(done as int)[0]);
        }
        assert(waiting.skip(1) =~= unsorted.skip(done + 1));
        let mut at: usize = 0;
        while at < sorted.len() && sorted[at].fee >= tx.fee
            invariant
                at <= sorted.len(),
                forall|i: int| 0 <= i < at ==> tx_views(sorted@)[i].fee >= tx.fee,
            decreases sorted.len() - at,
        {
            at = at + 1;
        }
        let ghost placed = tx_views(sorted@);
        proof {
            assert forall|i: int| at <= i < placed.len() implies placed[i].fee < tx@.fee by {
                if i > at {
                    assert(placed[at as int].fee >= placed[i].fee);
                }
            }
            lemma_insert_by_fee(placed, at as int, tx@);
            assert(unsorted.take(done + 1).drop_last() =~= unsorted.take(done as int));
        }
        sorted.insert(at, tx);
        assert(tx_views(sorted@) =~= placed.insert(at as int, tx@));
        done = done + 1;
        assert forall|fee: u64| with_fee(tx_views(sorted@), fee) == with_fee(
            unsorted.take(done as int),
            fee,
        ) by {
            assert(with_fee(placed, fee) == with_fee(unsorted.take(done - 1), fee));
        }
    }
    assert(unsorted.take(done as int) =~= unsorted);
    sorted
}

/// The queue of pending transactions, in the order in which they were
/// admitted.
pub struct TransactionPool {
    pub transactions: VecDeque<Transaction>,
}

impl View for TransactionPool {
    type V = Seq<TransactionView>;

    open spec fn view(&self) -> Seq<TransactionView> {
        tx_views(self.transactions@)
    }
}

impl TransactionPool {
    /// An empty queue.
    pub fn new() -> (pool: TransactionPool)
        ensures
            pool@ == Seq::<TransactionView>::empty(),
    {
        TransactionPool { transactions: VecDeque::new() }
    }

    /// Admits `transaction` at the end of the queue unless its amount is
    /// zero. Only the amount is looked at: whether the sender can pay is
    /// asked when a block is put together.
    pub fn add_transaction(&mut self, transaction: Transaction) -> (admitted: bool)
        ensures
            admitted == (transaction.amount > 0),
            admitted ==> final(self)@ == old(self)@.push(transaction@),
            !admitted ==> final(self)@ == old(self)@,
    {
        if transaction.amount > 0 {
            self.transactions.push_back(transaction);
            true
        } else {
            false
        }
    }

    /// How many transactions wait in the queue.
    pub fn len(&self) -> (n: usize)
        ensures
            n == self@.len(),
    {
        self.transactions.len()
    }

    /// Copies of the queued transactions, in queue order.
    pub fn get_transactions(&self) -> (txs: Vec<Transaction>)
        ensures
            tx_views(txs@) == self@,
    {
        let mut txs: Vec<Transaction> = Vec::new();
        let mut i: usize = 0;
        while i < self.transactions.len()
            invariant
                i <= self.transactions.len(),
                txs.len() == i,
                forall|k: int| 0 <= k < i ==> #[trigger] txs@[k]@ == self.transactions@[k]@,
            decreases self.transactions.len() - i,
        {
            txs.push(self.transactions[i].clone());
            i = i + 1;
        }
        txs
    }

    /// Empties the queue.
    pub fn clear(&mut self)
        ensures
            final(self)@ == Seq::<TransactionView>::empty(),
    {
        self.transactions.clear();
        assert(self@ =~= Seq::<TransactionView>::empty());
    }
}

} // verus!
