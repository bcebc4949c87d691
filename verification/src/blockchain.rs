//! The node's state: chain, pending transactions and balances, with the two
//! ways of producing a block and the rule for adopting another chain.

use crate::block::{
    block_views, lemma_new_payload_breaks_seal, lemma_no_nonce_above_64, Block, BlockView,
};
use crate::ledger::{affordable, covers, credited, is_richest, slashed, transfer, transfer_all, Ledger};
use crate::payload::{decode_transactions, encode_transactions, payload_text, payload_transactions};
use crate::transaction::{
    is_fee_priority_of, sort_by_fee, tx_views, Transaction, TransactionPool, TransactionView,
};
use crate::smart_contracts::vm::outcome_of;
use crate::smart_contracts::{call_outcome, SmartContract};
use rayon::iter::{IntoParallelIterator, IntoParallelRefIterator, ParallelIterator};
use std::collections::VecDeque;
use vstd::prelude::*;
use vstd::string::*;

verus! {

/// The bounded proof-of-work search tries the nonces below this number.
pub const POW_ATTEMPTS: u64 = 10_000_000;

/// The parallel proof-of-work search tries the nonces below this number.
pub const PARALLEL_POW_ATTEMPTS: u64 = 1_000_000;

/// The time, in units of the block timestamps, that the last blocks are
/// meant to take.
pub const TARGET_TIME: u64 = 10;

/// How many blocks back from the tip the observed time is measured.
pub const TIME_WINDOW: usize = 10;

/// Why no block was produced. In each case the state is as it was.
#[derive(Debug, PartialEq, Eq, Clone, Copy, Structural)]
pub enum BlockError {
    /// The chain holds no block to build on.
    EmptyChain,
    /// No nonce within the bound gives a hash of the asked difficulty. The
    /// caller may try again later or with another difficulty.
    SearchExhausted,
}

/// One node's view of the ledger: the chain it has adopted, the difficulty
/// of its proof of work, the pending transactions and the balances.
pub struct Blockchain {
    pub chain: Vec<Block>,
    pub difficulty: usize,
    pub transaction_pool: TransactionPool,
    pub balances: Ledger,
}

/// Block `i` of `chain` is sealed and names the hash of the block before it.
pub open spec fn linked(chain: Seq<BlockView>, i: int) -> bool {
    chain[i].sealed() && chain[i].previous_hash == chain[i - 1].hash
}

/// Every block but the first is sealed and names the hash of the block
/// before it. A chain of one block, and the empty chain, are valid.
pub open spec fn chain_valid(chain: Seq<BlockView>) -> bool {
    forall|i: int| 0 < i < chain.len() ==> #[trigger] linked(chain, i)
}

/// The block that comes after `chain` with payload `data`, before any search
/// for a nonce: its index is the length of the chain, its timestamp 0, its
/// nonce 0, and it names the hash of the tip.
pub open spec fn candidate(chain: Seq<BlockView>, data: Seq<char>) -> BlockView {
    (BlockView {
        index: chain.len() as u64,
        timestamp: 0,
        data: data,
        previous_hash: chain.last().hash,
        hash: Seq::empty(),
        nonce: 0,
    }).sealed_with(0)
}

/// The balances that come of carrying out, on `balances`, the transactions of
/// every block of `chain` from the first on. `balances` is what the accounts
/// hold before any transfer of the chain, the opening balances; the chain
/// itself creates no balance. A block whose payload cannot be read is passed
/// over.
pub open spec fn replay(balances: Map<Seq<char>, u64>, chain: Seq<BlockView>) -> Map<Seq<char>, u64>
    decreases chain.len(),
{
    if chain.len() == 0 {
        balances
    } else {
        let before = replay(balances, chain.drop_last());
        match payload_transactions(chain.last().data) {
            Some(txs) => transfer_all(before, txs),
            None => before,
        }
    }
}

/// Whether `candidate` takes the place of `local`: it must be longer, and
/// valid by its own blocks.
pub open spec fn fork_adopted(local: Seq<BlockView>, candidate: Seq<BlockView>) -> bool {
    candidate.len() > local.len() && chain_valid(candidate)
}

/// The time that the blocks of the window before the tip took: the tip's
/// timestamp less that of the block `TIME_WINDOW` places before it, or of the
/// first block in a shorter chain; 0 where that would be negative, and the
/// largest 64-bit number where it is larger than that.
pub open spec fn observed_time(chain: Seq<BlockView>) -> u64 {
    if chain.len() == 0 {
        0
    } else {
        let from = if chain.len() > TIME_WINDOW {
            chain.len() - 1 - TIME_WINDOW
        } else {
            0
        };
        let span = chain.last().timestamp - chain[from].timestamp;
        if span < 0 {
            0
        } else if span > u64::MAX {
            u64::MAX
        } else {
            span as u64
        }
    }
}

/// The difficulty that follows `current` when the last blocks took `actual`
/// and were meant to take `target`: one more where they came faster, one less
/// where they came slower, but never less than 1.
pub open spec fn adjusted(current: usize, actual: u64, target: u64) -> usize {
    if actual < target {
        if current < usize::MAX {
            (current + 1) as usize
        } else {
            current
        }
    } else if actual > target {
        if current > 1 {
            (current - 1) as usize
        } else {
            1
        }
    } else {
        current
    }
}

/// A chain of at most one block is valid.
pub proof fn lemma_short_chain_valid(chain: Seq<BlockView>)
    requires
        chain.len() <= 1,
    ensures
        chain_valid(chain),
{
}

/// A valid chain stays valid when a sealed block that names the hash of its
/// tip is put at its end.
pub proof fn lemma_extension_keeps_validity(chain: Seq<BlockView>, block: BlockView)
    requires
        chain_valid(chain),
        chain.len() > 0,
        block.sealed(),
        block.previous_hash == chain.last().hash,
    ensures
        chain_valid(chain.push(block)),
{
    let longer = chain.push(block);
    assert forall|i: int| 0 < i < longer.len() implies #[trigger] linked(longer, i) by {
        if i < chain.len() {
            assert(linked(chain, i));
        }
    }
}

/// Changing the payload of any block but the first makes a valid chain
/// invalid, unless SHA-256 gives the block's old and new contents the same
/// digest. (The first block's hash is never recomputed: see `chain_valid`.)
pub proof fn lemma_tampering_is_detected(chain: Seq<BlockView>, i: int, data: Seq<char>)
    requires
        chain_valid(chain),
        0 < i < chain.len(),
        chain[i].with_data(data).digest_with(chain[i].nonce) != chain[i].digest_with(
            chain[i].nonce,
        ),
    ensures
        !chain_valid(chain.update(i, chain[i].with_data(data))),
{
    assert(linked(chain, i));
    lemma_new_payload_breaks_seal(chain[i], data);
    let tampered = chain.update(i, chain[i].with_data(data));
    assert(!linked(tampered, i));
}

/// A chain that is not longer than the one held is never adopted; so a node
/// that is offered its own chain keeps its state.
pub proof fn lemma_incumbent_wins_ties(local: Seq<BlockView>, offered: Seq<BlockView>)
    requires
        offered.len() <= local.len(),
    ensures
        !fork_adopted(local, offered),
        !fork_adopted(local, local),
{
}

/// Replaying a chain with one more block is replaying the chain and then
/// carrying out the transfers of that block, so that a block applied when it
/// is accepted and a block replayed later come to the same: where the
/// payload of `block` reads as `txs`, the balances are those of the shorter
/// chain after `txs`; where it cannot be read, they are those of the shorter
/// chain.
pub proof fn lemma_replay_step(
    balances: Map<Seq<char>, u64>,
    chain: Seq<BlockView>,
    block: BlockView,
)
    ensures
        payload_transactions(block.data) matches Some(txs) ==> replay(balances, chain.push(block))
            == transfer_all(replay(balances, chain), txs),
        payload_transactions(block.data) is None ==> replay(balances, chain.push(block)) == replay(
            balances,
            chain,
        ),
        replay(balances, Seq::<BlockView>::empty()) == balances,
{
    assert(chain.push(block).drop_last() =~= chain);
}

/// A block that is carried out when it is accepted and the same block
/// replayed later leave the same balances, where the payload of the block
/// reads back as the transactions that were carried out, signatures apart.
pub proof fn lemma_accepted_block_replays(
    balances: Map<Seq<char>, u64>,
    chain: Seq<BlockView>,
    block: BlockView,
    carried_out: Seq<TransactionView>,
)
    requires
        payload_transactions(block.data) matches Some(read) && read.len() == carried_out.len()
            && forall|i: int|
            0 <= i < read.len() ==> read[i].sender == carried_out[i].sender && read[i].receiver
                == carried_out[i].receiver && read[i].amount == carried_out[i].amount
                && read[i].fee == carried_out[i].fee,
    ensures
        replay(balances, chain.push(block)) == transfer_all(replay(balances, chain), carried_out),
{
    let read = payload_transactions(block.data).unwrap();
    lemma_replay_step(balances, chain, block);
    lemma_transfers_ignore_signatures(replay(balances, chain), read, carried_out);
}

/// A node whose balances are the rebuild of its chain from the opening
/// balances stays so when it accepts a block, where the payload of the block
/// reads back as the transactions that were carried out, signatures apart.
/// So the balances that block production leaves are those that a rebuild
/// gives.
pub proof fn lemma_acceptance_keeps_the_rebuild(
    before: Blockchain,
    block: BlockView,
    after: Blockchain,
)
    requires
        before.balances@ == replay(before.balances.opening(), before.blocks()),
        before.accepted(block, after),
        payload_transactions(block.data) matches Some(read) && read.len()
            == before.assembled().len() && forall|i: int|
            0 <= i < read.len() ==> read[i].sender == before.assembled()[i].sender
                && read[i].receiver == before.assembled()[i].receiver && read[i].amount
                == before.assembled()[i].amount && read[i].fee == before.assembled()[i].fee,
    ensures
        after.balances@ == replay(after.balances.opening(), after.blocks()),
{
    lemma_accepted_block_replays(
        before.balances.opening(),
        before.blocks(),
        block,
        before.assembled(),
    );
}

/// Signatures play no part in a transfer: two sequences of transactions that
/// agree on senders, receivers, amounts and fees leave the same balances.
pub proof fn lemma_transfers_ignore_signatures(
    balances: Map<Seq<char>, u64>,
    a: Seq<TransactionView>,
    b: Seq<TransactionView>,
)
    requires
        a.len() == b.len(),
        forall|i: int|
            0 <= i < a.len() ==> a[i].sender == b[i].sender && a[i].receiver == b[i].receiver
                && a[i].amount == b[i].amount && a[i].fee == b[i].fee,
    ensures
        transfer_all(balances, a) == transfer_all(balances, b),
    decreases a.len(),
{
    if a.len() > 0 {
        lemma_transfers_ignore_signatures(balances, a.drop_last(), b.drop_last());
    }
}

/// Whether a chain is valid: see `chain_valid`.
pub fn is_valid_chain(chain: &Vec<Block>) -> (ok: bool)
    ensures
        ok == chain_valid(block_views(chain@)),
{
    let mut i: usize = 1;
    while i < chain.len()
        invariant
            1 <= i,
            forall|k: int| 0 < k < i && k < chain.len() ==> #[trigger] linked(block_views(chain@), k),
        decreases chain.len() - i,
    {
        let current = &chain[i];
        let previous = &chain[i - 1];
        let expected = current.calculate_hash();
        if current.hash != expected {
            assert(!linked(block_views(chain@), i as int));
            return false;
        }
        if current.previous_hash != previous.hash {
            assert(!linked(block_views(chain@), i as int));
            return false;
        }
        i = i + 1;
    }
    true
}

/// The difficulty to go on with: see `adjusted`.
pub fn next_difficulty(current: usize, actual_time: u64, target_time: u64) -> (next: usize)
    ensures
        next == adjusted(current, actual_time, target_time),
{
    if actual_time < target_time {
        if current < usize::MAX {
            current + 1
        } else {
            current
        }
    } else if actual_time > target_time {
        if current > 1 {
            current - 1
        } else {
            1
        }
    } else {
        current
    }
}

/// Searches the nonces below `attempts` on several threads for one that gives
/// `block` a hash of the asked difficulty: `rayon`'s `find_any` over the
/// range, with `Block::nonce_meets` as the test. Trusted: a nonce that is
/// handed back passed the test, and `None` comes back only where no nonce of
/// the range passes it. Which of several passing nonces comes back is open.
#[verifier::external_body]
fn par_find_nonce(block: &Block, difficulty: usize, attempts: u64) -> (found: Option<u64>)
    ensures
        match found {
            Some(n) => n < attempts && block@.meets(n, difficulty as nat),
            None => forall|m: u64| m < attempts ==> !block@.meets(m, difficulty as nat),
        },
{
    (0..attempts).into_par_iter().find_any(|nonce| block.nonce_meets(*nonce, difficulty))
}

/// Filters the queue on several threads: `rayon`'s `par_iter`, `filter` with
/// `Ledger::covers` as the test, `cloned` and `collect`. Trusted: the result
/// holds copies of exactly the transactions that pass the test, in queue
/// order.
#[verifier::external_body]
fn par_affordable(queue: &VecDeque<Transaction>, ledger: &Ledger) -> (txs: Vec<Transaction>)
    ensures
        tx_views(txs@) == affordable(ledger@, tx_views(queue@)),
{
    queue.par_iter().filter(|tx| ledger.covers(tx)).cloned().collect()
}

impl Blockchain {
    /// The chain as contracts see it.
    pub open spec fn blocks(&self) -> Seq<BlockView> {
        block_views(self.chain@)
    }

    /// The transactions that the next block holds: the pending transactions
    /// whose sender can pay, going by the balances as they stand.
    pub open spec fn assembled(&self) -> Seq<TransactionView> {
        affordable(self.balances@, self.transaction_pool@)
    }

    /// The block that follows the tip before any search for a nonce, or why
    /// there is none. Proof of stake adds this block as it is.
    pub open spec fn next_candidate(&self) -> Result<BlockView, BlockError> {
        if self.chain.len() == 0 {
            Err(BlockError::EmptyChain)
        } else {
            Ok(candidate(self.blocks(), payload_text(self.assembled())))
        }
    }

    /// The block that proof of work adds next, or why it adds none: the
    /// candidate, sealed with the first nonce below `POW_ATTEMPTS` that gives
    /// a hash of the difficulty in force.
    pub open spec fn next_by_work(&self) -> Result<BlockView, BlockError> {
        match self.next_candidate() {
            Err(error) => Err(error),
            Ok(open) => match open.least_nonce(self.difficulty as nat, (POW_ATTEMPTS - 1) as u64) {
                Some(nonce) => Ok(open.sealed_with(nonce)),
                None => Err(BlockError::SearchExhausted),
            },
        }
    }

    /// `after` is this state with `block` accepted: the block is the new tip,
    /// the queue is empty, and the transactions of the block have been
    /// carried out.
    pub open spec fn accepted(&self, block: BlockView, after: Blockchain) -> bool {
        &&& after.blocks() == self.blocks().push(block)
        &&& after.transaction_pool@ == Seq::<TransactionView>::empty()
        &&& after.balances@ == transfer_all(self.balances@, self.assembled())
        &&& after.balances.opening() == self.balances.opening()
        &&& after.difficulty == self.difficulty
    }

    /// The validator that proof of stake names: the richest account, or the
    /// empty name where there is no account.
    pub open spec fn names_validator(&self, validator: Seq<char>) -> bool {
        if self.balances@ == Map::<Seq<char>, u64>::empty() {
            validator == Seq::<char>::empty()
        } else {
            is_richest(self.balances@, validator)
        }
    }

    /// A chain of one block, the genesis block: index 0, timestamp 0, payload
    /// `[]`, previous hash `0`. Difficulty 2, no pending transactions, no
    /// balances.
    pub fn new() -> (blockchain: Blockchain)
        ensures
            blockchain.blocks().len() == 1,
            blockchain.blocks()[0].index == 0,
            blockchain.blocks()[0].timestamp == 0,
            blockchain.blocks()[0].data == "[]"@,
            blockchain.blocks()[0].previous_hash == "0"@,
            blockchain.blocks()[0].nonce == 0,
            blockchain.blocks()[0].sealed(),
            blockchain.blocks()[0].hash.len() == 64,
            chain_valid(blockchain.blocks()),
            blockchain.difficulty == 2,
            blockchain.transaction_pool@ == Seq::<TransactionView>::empty(),
            blockchain.balances@ == Map::<Seq<char>, u64>::empty(),
            blockchain.balances.opening() == Map::<Seq<char>, u64>::empty(),
    {
        let mut chain: Vec<Block> = Vec::new();
        chain.push(Block::new(0, 0, "[]".to_owned(), "0".to_owned()));
        Blockchain {
            chain,
            difficulty: 2,
            transaction_pool: TransactionPool::new(),
            balances: Ledger::new(),
        }
    }

    /// Whether the chain is valid: see `chain_valid`.
    pub fn is_chain_valid(&self) -> (ok: bool)
        ensures
            ok == chain_valid(self.blocks()),
    {
        is_valid_chain(&self.chain)
    }

    /// Whether the sender of `transaction` holds amount and fee together.
    pub fn validate_transaction(&self, transaction: &Transaction) -> (ok: bool)
        ensures
            ok == covers(self.balances@, transaction@),
    {
        self.balances.covers(transaction)
    }

    /// Whether the sender can pay and exactly one signature is attached that
    /// is valid under the sender's name, read as a public key.
    pub fn validate_transaction_security(&self, transaction: &Transaction) -> (ok: bool)
        ensures
            ok == (covers(self.balances@, transaction@) && transaction@.signed_by_each(
                seq![vstd::utf8::encode_utf8(transaction@.sender)],
            )),
    {
        self.validate_transaction(transaction) && transaction.verify_single(
            transaction.sender.as_str().as_bytes(),
        )
    }

    /// Queues `transaction` if its sender can pay and its amount is not zero.
    pub fn add_transaction(&mut self, transaction: Transaction) -> (admitted: bool)
        ensures
            admitted == (covers(old(self).balances@, transaction@) && transaction.amount > 0),
            admitted ==> final(self).transaction_pool@ == old(self).transaction_pool@.push(
                transaction@,
            ),
            !admitted ==> final(self).transaction_pool@ == old(self).transaction_pool@,
            final(self).chain == old(self).chain,
            final(self).difficulty == old(self).difficulty,
            final(self).balances == old(self).balances,
    {
        if self.validate_transaction(&transaction) {
            self.transaction_pool.add_transaction(transaction)
        } else {
            false
        }
    }

    /// Copies of the pending transactions whose sender can pay, going by the
    /// balances as they stand; queue order is kept.
    pub fn validate_transactions(&self) -> (txs: Vec<Transaction>)
        ensures
            tx_views(txs@) == self.assembled(),
    {
        let queue = &self.transaction_pool.transactions;
        let mut txs: Vec<Transaction> = Vec::new();
        let mut i: usize = 0;
        while i < queue.len()
            invariant
                i <= queue.len(),
                tx_views(txs@) == affordable(self.balances@, tx_views(queue@).take(i as int)),
            decreases queue.len() - i,
        {
            let ghost seen = tx_views(queue@).take(i as int);
            let ghost next = tx_views(queue@).take(i + 1);
            assert(next.drop_last() =~= seen);
            if self.balances.covers(&queue[i]) {
                txs.push(queue[i].clone());
            }
            i = i + 1;
        }
        assert(tx_views(queue@).take(i as int) =~= tx_views(queue@));
        txs
    }

    /// The same as `validate_transactions`, on several threads.
    pub fn validate_transactions_parallel(&self) -> (txs: Vec<Transaction>)
        ensures
            tx_views(txs@) == self.assembled(),
    {
        par_affordable(&self.transaction_pool.transactions, &self.balances)
    }

    /// The block that would follow the tip with payload `data`: see
    /// `candidate`. `None` for an empty chain.
    pub fn candidate_block(&self, data: String) -> (block: Option<Block>)
        ensures
            match block {
                Some(b) => self.chain.len() > 0 && b@ == candidate(self.blocks(), data@)
                    && b@.hash.len() == 64,
                None => self.chain.len() == 0,
            },
    {
        if self.chain.len() == 0 {
            return None;
        }
        let tip = &self.chain[self.chain.len() - 1];
        let block = Block::new(self.chain.len() as u64, 0, data, tip.hash.clone());
        Some(block)
    }

    /// Takes `block` as the new tip: the queue is emptied and `transactions`
    /// are carried out on the balances, in order.
    pub fn accept_block(&mut self, block: Block, transactions: &Vec<Transaction>)
        ensures
            final(self).blocks() == old(self).blocks().push(block@),
            old(self).chain.len() > 0 && chain_valid(old(self).blocks()) && block@.sealed()
                && block@.previous_hash == old(self).blocks().last().hash ==> chain_valid(
                final(self).blocks(),
            ),
            final(self).transaction_pool@ == Seq::<TransactionView>::empty(),
            final(self).balances@ == transfer_all(old(self).balances@, tx_views(transactions@)),
            final(self).balances.opening() == old(self).balances.opening(),
            final(self).difficulty == old(self).difficulty,
    {
        self.chain.push(block);
        proof {
            if old(self).chain.len() > 0 && chain_valid(old(self).blocks()) && block@.sealed()
                && block@.previous_hash == old(self).blocks().last().hash {
                lemma_extension_keeps_validity(old(self).blocks(), block@);
            }
        }
        self.transaction_pool.clear();
        self.balances.apply_all(transactions);
    }

    /// Produces the next block by proof of work. The pending transactions
    /// whose sender can pay form the payload; the nonces below `POW_ATTEMPTS`
    /// are tried in rising order, and the first that gives a hash with
    /// `difficulty` leading zeros seals the block. The block becomes the tip,
    /// the queue is emptied and the transactions are carried out.
    pub fn add_block_with_pow(&mut self) -> (result: Result<(), BlockError>)
        ensures
            old(self).difficulty > 64 ==> result is Err,
            old(self).difficulty > 64 && old(self).next_candidate() is Ok ==> result == Err::<
                (),
                BlockError,
            >(BlockError::SearchExhausted),
            result is Ok ==> final(self).blocks().last().hash.len() == 64,
            match old(self).next_by_work() {
                Ok(block) => result is Ok && old(self).accepted(block, *final(self)),
                Err(error) => result == Err::<(), BlockError>(error) && *final(self) == *old(self),
            },
            result is Ok && chain_valid(old(self).blocks()) ==> chain_valid(final(self).blocks()),
    {
        if self.chain.len() == 0 {
            return Err(BlockError::EmptyChain);
        }
        let transactions = self.validate_transactions();
        let data = encode_transactions(&transactions);
        let mut block = match self.candidate_block(data) {
            Some(block) => block,
            None => {
                return Err(BlockError::EmptyChain);
            },
        };
        match block.find_nonce(self.difficulty, POW_ATTEMPTS - 1) {
            Some(nonce) => {
                block.seal(nonce);
                self.accept_block(block, &transactions);
                Ok(())
            },
            None => Err(BlockError::SearchExhausted),
        }
    }

    /// The validator of the next block under proof of stake: the account
    /// with the highest balance; among several with that balance, the one
    /// whose name comes first. The empty name where there is no account.
    pub fn select_validator(&self) -> (validator: String)
        ensures
            self.names_validator(validator@),
    {
        match self.balances.richest() {
            Some(name) => name,
            None => String::new(),
        }
    }

    /// Produces the next block by proof of stake and names its validator. The
    /// pending transactions whose sender can pay form the payload; the block
    /// is sealed as it is, without a search. The block becomes the tip, the
    /// queue is emptied and the transactions are carried out. The validator
    /// is chosen on the balances as they stood before.
    pub fn add_block_with_pos(&mut self) -> (result: Result<String, BlockError>)
        ensures
            result is Ok ==> final(self).blocks().last().hash.len() == 64,
            match old(self).next_candidate() {
                Ok(block) => result matches Ok(validator) && old(self).names_validator(validator@)
                    && old(self).accepted(block, *final(self)),
                Err(error) => result == Err::<String, BlockError>(error) && *final(self) == *old(
                    self,
                ),
            },
            result is Ok && chain_valid(old(self).blocks()) ==> chain_valid(final(self).blocks()),
    {
        if self.chain.len() == 0 {
            return Err(BlockError::EmptyChain);
        }
        let transactions = self.validate_transactions();
        let data = encode_transactions(&transactions);
        let block = match self.candidate_block(data) {
            Some(block) => block,
            None => {
                return Err(BlockError::EmptyChain);
            },
        };
        let validator = self.select_validator();
        self.accept_block(block, &transactions);
        Ok(validator)
    }

    /// Produces the next block, by proof of work where `use_pow` is set and by
    /// proof of stake where it is not.
    pub fn add_block(&mut self, use_pow: bool) -> (result: Result<(), BlockError>)
        ensures
            use_pow && old(self).difficulty > 64 ==> result is Err,
            use_pow && old(self).difficulty > 64 && old(self).next_candidate() is Ok ==> result
                == Err::<(), BlockError>(BlockError::SearchExhausted),
            result is Ok ==> final(self).blocks().last().hash.len() == 64,
            match (if use_pow {
                old(self).next_by_work()
            } else {
                old(self).next_candidate()
            }) {
                Ok(block) => result is Ok && old(self).accepted(block, *final(self)),
                Err(error) => result == Err::<(), BlockError>(error) && *final(self) == *old(self),
            },
            result is Ok && chain_valid(old(self).blocks()) ==> chain_valid(final(self).blocks()),
    {
        if use_pow {
            self.add_block_with_pow()
        } else {
            match self.add_block_with_pos() {
                Ok(_) => Ok(()),
                Err(error) => Err(error),
            }
        }
    }

    /// Produces the next block by a proof-of-work search on several threads.
    /// The nonces below `PARALLEL_POW_ATTEMPTS` are searched for one that
    /// gives a hash with `difficulty` leading zeros; any such nonce may seal
    /// the block.
    pub fn mine_block_optimized(&mut self, difficulty: usize) -> (result: Result<(), BlockError>)
        ensures
            difficulty > 64 ==> result is Err,
            result is Ok ==> final(self).blocks().last().hash.len() == 64,
            old(self).next_candidate() matches Err(error) ==> result == Err::<(), BlockError>(error),
            old(self).next_candidate() is Ok ==> {
                let open = old(self).next_candidate().unwrap();
                match result {
                    Ok(_) => exists|n: u64|
                        n < PARALLEL_POW_ATTEMPTS && open.meets(n, difficulty as nat) && old(
                            self,
                        ).accepted(#[trigger] open.sealed_with(n), *final(self)),
                    Err(error) => error == BlockError::SearchExhausted && forall|n: u64|
                        n < PARALLEL_POW_ATTEMPTS ==> !open.meets(n, difficulty as nat),
                }
            },
            result is Err ==> *final(self) == *old(self),
            result is Ok && chain_valid(old(self).blocks()) ==> chain_valid(final(self).blocks()),
    {
        if self.chain.len() == 0 {
            return Err(BlockError::EmptyChain);
        }
        let transactions = self.validate_transactions_parallel();
        let data = encode_transactions(&transactions);
        let mut block = match self.candidate_block(data) {
            Some(block) => block,
            None => {
                return Err(BlockError::EmptyChain);
            },
        };
        let ghost open = old(self).next_candidate().unwrap();
        assert(block@ == open);
        if difficulty > 64 {
            proof {
                lemma_no_nonce_above_64(open, difficulty as nat, 0);
            }
            return Err(BlockError::SearchExhausted);
        }
        match par_find_nonce(&block, difficulty, PARALLEL_POW_ATTEMPTS) {
            Some(nonce) => {
                block.seal(nonce);
                self.accept_block(block, &transactions);
                assert(old(self).accepted(open.sealed_with(nonce), *self));
                Ok(())
            },
            None => Err(BlockError::SearchExhausted),
        }
    }

    /// Rebuilds the balances for the chain: starting from the opening
    /// balances, the transactions of every block are carried out, from the
    /// first block on, each one if it can be paid by then. What the accounts
    /// held before is put aside; the opening balances stay.
    pub fn update_balances(&mut self)
        ensures
            final(self).balances@ == replay(old(self).balances.opening(), old(self).blocks()),
            final(self).balances.opening() == old(self).balances.opening(),
            final(self).chain == old(self).chain,
            final(self).difficulty == old(self).difficulty,
            final(self).transaction_pool == old(self).transaction_pool,
    {
        self.balances.restore_opening();
        let mut i: usize = 0;
        while i < self.chain.len()
            invariant
                i <= self.chain.len(),
                self.balances@ == replay(
                    old(self).balances.opening(),
                    self.blocks().take(i as int),
                ),
                self.balances.opening() == old(self).balances.opening(),
                self.chain == old(self).chain,
                self.difficulty == old(self).difficulty,
                self.transaction_pool == old(self).transaction_pool,
            decreases self.chain.len() - i,
        {
            assert(self.blocks().take(i + 1).drop_last() =~= self.blocks().take(i as int));
            match decode_transactions(self.chain[i].data.as_str()) {
                Some(transactions) => {
                    self.balances.apply_all(&transactions);
                },
                None => {},
            }
            i = i + 1;
        }
        assert(self.blocks().take(i as int) =~= self.blocks());
    }

    /// Decides between the chain and `other_chain`. The other chain is
    /// adopted if it is longer and valid by its own blocks; the balances are
    /// then rebuilt for it from the opening balances, as by
    /// `update_balances`, so that nothing of the chain given up is left in
    /// them. Otherwise nothing changes: of two chains of the same length the
    /// one already held stays.
    pub fn resolve_fork(&mut self, other_chain: Vec<Block>) -> (adopted: bool)
        ensures
            adopted == fork_adopted(old(self).blocks(), block_views(other_chain@)),
            adopted ==> final(self).chain == other_chain,
            adopted ==> final(self).balances@ == replay(
                old(self).balances.opening(),
                block_views(other_chain@),
            ),
            adopted ==> final(self).balances.opening() == old(self).balances.opening(),
            adopted ==> final(self).difficulty == old(self).difficulty,
            adopted ==> final(self).transaction_pool == old(self).transaction_pool,
            !adopted ==> *final(self) == *old(self),
    {
        if other_chain.len() > self.chain.len() && is_valid_chain(&other_chain) {
            self.chain = other_chain;
            self.update_balances();
            true
        } else {
            false
        }
    }

    /// Adds `reward` to the balance of `validator`, whatever account that is.
    /// The balance stops at the largest value that 64 bits hold.
    pub fn reward_validator(&mut self, validator: &str, reward: u64)
        ensures
            final(self).balances@ == credited(old(self).balances@, validator@, reward),
            final(self).balances.opening() == old(self).balances.opening(),
            final(self).chain == old(self).chain,
            final(self).difficulty == old(self).difficulty,
            final(self).transaction_pool == old(self).transaction_pool,
    {
        self.balances.credit(validator, reward);
    }

    /// Takes `penalty` from the balance of `validator`, stopping at zero.
    pub fn slash_validator(&mut self, validator: &str, penalty: u64)
        ensures
            final(self).balances@ == slashed(old(self).balances@, validator@, penalty),
            final(self).balances.opening() == old(self).balances.opening(),
            final(self).chain == old(self).chain,
            final(self).difficulty == old(self).difficulty,
            final(self).transaction_pool == old(self).transaction_pool,
    {
        self.balances.slash(validator, penalty);
    }

    /// The time that the last blocks took: see `observed_time`.
    pub fn calculate_actual_time(&self) -> (time: u64)
        ensures
            time == observed_time(self.blocks()),
    {
        if self.chain.len() == 0 {
            return 0;
        }
        let tip: usize = self.chain.len() - 1;
        let from: usize = if self.chain.len() > TIME_WINDOW {
            tip - TIME_WINDOW
        } else {
            0
        };
        let end = self.chain[tip].timestamp;
        let start = self.chain[from].timestamp;
        if end < start {
            0
        } else if end - start > u64::MAX as u128 {
            u64::MAX
        } else {
            (end - start) as u64
        }
    }

    /// Sets the difficulty to go on with, from the time that the last blocks
    /// took and `TARGET_TIME`: see `adjusted`.
    pub fn adjust_difficulty(&mut self)
        ensures
            final(self).difficulty == adjusted(
                old(self).difficulty,
                observed_time(old(self).blocks()),
                TARGET_TIME,
            ),
            final(self).chain == old(self).chain,
            final(self).balances == old(self).balances,
            final(self).transaction_pool == old(self).transaction_pool,
    {
        let actual_time = self.calculate_actual_time();
        self.difficulty = next_difficulty(self.difficulty, actual_time, TARGET_TIME);
    }

    /// A new contract with the code `code`. The node's state is not touched.
    pub fn deploy_contract(&mut self, code: String) -> (contract: SmartContract)
        ensures
            contract.code == code,
            contract.state@ == Map::<String, i32>::empty(),
            contract.roles@ == Set::<Seq<char>>::empty(),
            *final(self) == *old(self),
    {
        SmartContract::new(code)
    }

    /// Calls `function_name` of `contract` on `params`. Neither the node's
    /// state nor the contract changes.
    pub fn execute_contract(
        &mut self,
        contract: &mut SmartContract,
        function_name: &str,
        params: &[i32],
    ) -> (result: Result<i32, String>)
        ensures
            outcome_of(result) == call_outcome(function_name@, params@),
            *final(self) == *old(self),
            *final(contract) == *old(contract),
    {
        contract.execute(function_name, params)
    }

    /// Calls `function_name` of `callee` on `params`, on behalf of `caller`.
    /// Nothing but the result comes of it.
    pub fn call_contract(
        &mut self,
        caller: &mut SmartContract,
        callee: &mut SmartContract,
        function_name: &str,
        params: &[i32],
    ) -> (result: Result<i32, String>)
        ensures
            outcome_of(result) == call_outcome(function_name@, params@),
            *final(self) == *old(self),
            *final(caller) == *old(caller),
            *final(callee) == *old(callee),
    {
        callee.execute(function_name, params)
    }

    /// The same as `call_contract`: the result goes back to the caller.
    pub fn call_contract_with_return(
        &mut self,
        caller: &mut SmartContract,
        callee: &mut SmartContract,
        function_name: &str,
        params: &[i32],
    ) -> (result: Result<i32, String>)
        ensures
            outcome_of(result) == call_outcome(function_name@, params@),
            *final(self) == *old(self),
            *final(caller) == *old(caller),
            *final(callee) == *old(callee),
    {
        callee.execute(function_name, params)
    }

    /// Puts the queue in the order of fee priority: highest fee first, and
    /// transactions with the same fee in the order in which they were
    /// admitted.
    pub fn prioritize_transactions(&mut self)
        ensures
            is_fee_priority_of(final(self).transaction_pool@, old(self).transaction_pool@),
            final(self).chain == old(self).chain,
            final(self).difficulty == old(self).difficulty,
            final(self).balances == old(self).balances,
    {
        let mut waiting: Vec<Transaction> = Vec::new();
        while self.transaction_pool.transactions.len() > 0
            invariant
                tx_views(waiting@) + self.transaction_pool@ == old(self).transaction_pool@,
                self.chain == old(self).chain,
                self.difficulty == old(self).difficulty,
                self.balances == old(self).balances,
            decreases self.transaction_pool.transactions.len(),
        {
            match self.transaction_pool.transactions.pop_front() {
                Some(transaction) => {
                    waiting.push(transaction);
                },
                None => {},
            }
        }
        let sorted = sort_by_fee(waiting);
        let ghost target = tx_views(sorted@);
        let mut sorted = sorted;
        let total = sorted.len();
        let mut i: usize = 0;
        while i < total
            invariant
                i <= total,
                total == target.len(),
                sorted.len() == total - i,
                tx_views(sorted@) == target.skip(i as int),
                self.transaction_pool@ == target.take(i as int),
                self.chain == old(self).chain,
                self.difficulty == old(self).difficulty,
                self.balances == old(self).balances,
            decreases total - i,
        {
            let ghost left = tx_views(sorted@);
            let transaction = sorted.remove(0);
            assert(transaction@ == target[i as int]) by {
                assert(left[0] == target.skip(i as int)[0]);
            }
            let ghost queued = self.transaction_pool@;
            self.transaction_pool.transactions.push_back(transaction);
            i = i + 1;
            assert(left.skip(1) =~= target.skip(i as int));
            assert(queued.push(transaction@) =~= target.take(i as int));
        }
        assert(target.take(i as int) =~= target);
    }

    /// Carries out `transaction` on the balances if that can be done, and
    /// says whether it was done.
    pub fn apply_transaction(&mut self, transaction: &Transaction) -> (done: bool)
        ensures
            final(self).balances@ == transfer(old(self).balances@, transaction@),
            final(self).balances.opening() == old(self).balances.opening(),
            done == crate::ledger::applicable(old(self).balances@, transaction@),
            final(self).chain == old(self).chain,
            final(self).difficulty == old(self).difficulty,
            final(self).transaction_pool == old(self).transaction_pool,
    {
        self.balances.apply(transaction)
    }

    /// Takes the first `batch_size` transactions off the queue, or all of
    /// them where there are fewer, and carries each out if it can be done.
    /// Says how many were taken off.
    pub fn process_transactions_in_batches(&mut self, batch_size: usize) -> (taken: usize)
        ensures
            taken == if batch_size <= old(self).transaction_pool@.len() {
                batch_size as int
            } else {
                old(self).transaction_pool@.len() as int
            },
            final(self).transaction_pool@ == old(self).transaction_pool@.skip(taken as int),
            final(self).balances@ == transfer_all(
                old(self).balances@,
                old(self).transaction_pool@.take(taken as int),
            ),
            final(self).balances.opening() == old(self).balances.opening(),
            final(self).chain == old(self).chain,
            final(self).difficulty == old(self).difficulty,
    {
        let mut taken: usize = 0;
        while taken < batch_size && self.transaction_pool.transactions.len() > 0
            invariant
                taken <= batch_size,
                taken <= old(self).transaction_pool@.len(),
                self.transaction_pool@ == old(self).transaction_pool@.skip(taken as int),
                self.balances@ == transfer_all(
                    old(self).balances@,
                    old(self).transaction_pool@.take(taken as int),
                ),
                self.balances.opening() == old(self).balances.opening(),
                self.chain == old(self).chain,
                self.difficulty == old(self).difficulty,
            decreases batch_size - taken,
        {
            let ghost queued = self.transaction_pool@;
            match self.transaction_pool.transactions.pop_front() {
                Some(transaction) => {
                    assert(transaction@ == queued[0]);
                    assert(self.transaction_pool@ =~= queued.skip(1));
                    assert(old(self).transaction_pool@.take(taken + 1).drop_last()
                        =~= old(self).transaction_pool@.take(taken as int));
                    self.balances.apply(&transaction);
                    taken = taken + 1;
                },
                None => {},
            }
        }
        taken
    }
}

} // verus!
