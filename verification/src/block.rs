//! A block of the chain and the hash that seals it.

use crate::hashing::{digest, digest32};
use crate::text::{
    append_decimal, decimal, has_leading_zeros, hex_has_leading_zeros, hex_lower,
    lemma_hex_lower_injective, to_hex,
};
use vstd::prelude::*;
use vstd::string::*;

verus! {

/// One record of the chain. `data` is the payload: the block's transactions
/// in their serialized form. `hash` seals the other five fields.
#[derive(Debug)]
pub struct Block {
    pub index: u64,
    pub timestamp: u128,
    pub data: String,
    pub previous_hash: String,
    pub hash: String,
    pub nonce: u64,
}

/// A block as contracts see it.
pub struct BlockView {
    pub index: u64,
    pub timestamp: u128,
    pub data: Seq<char>,
    pub previous_hash: Seq<char>,
    pub hash: Seq<char>,
    pub nonce: u64,
}

impl View for Block {
    type V = BlockView;

    open spec fn view(&self) -> BlockView {
        BlockView {
            index: self.index,
            timestamp: self.timestamp,
            data: self.data@,
            previous_hash: self.previous_hash@,
            hash: self.hash@,
            nonce: self.nonce,
        }
    }
}

/// The blocks of a sequence, each by its view.
pub open spec fn block_views(blocks: Seq<Block>) -> Seq<BlockView> {
    Seq::new(blocks.len(), |i: int| blocks[i]@)
}

impl Clone for Block {
    fn clone(&self) -> (copy: Self)
        ensures
            copy@ == self@,
    {
        Block {
            index: self.index,
            timestamp: self.timestamp,
            data: self.data.clone(),
            previous_hash: self.previous_hash.clone(),
            hash: self.hash.clone(),
            nonce: self.nonce,
        }
    }
}

/// The text that is hashed: index, timestamp, payload, previous hash and
/// nonce, written one after the other, the numbers in decimal.
pub open spec fn preimage(
    index: u64,
    timestamp: u128,
    data: Seq<char>,
    previous_hash: Seq<char>,
    nonce: u64,
) -> Seq<char> {
    decimal(index as nat) + decimal(timestamp as nat) + data + previous_hash + decimal(
        nonce as nat,
    )
}

impl BlockView {
    /// The SHA-256 digest of the block's contents when its nonce is `nonce`.
    pub open spec fn digest_with(self, nonce: u64) -> Seq<u8> {
        digest32(
            vstd::utf8::encode_utf8(
                preimage(self.index, self.timestamp, self.data, self.previous_hash, nonce),
            ),
        )
    }

    /// The hash that the block's contents call for, in lower-case hexadecimal.
    pub open spec fn expected_hash(self) -> Seq<char> {
        hex_lower(self.digest_with(self.nonce))
    }

    /// The stored hash is the hash of the contents.
    pub open spec fn sealed(self) -> bool {
        self.hash == self.expected_hash()
    }

    /// With nonce `nonce` the hash starts with `difficulty` zeros.
    pub open spec fn meets(self, nonce: u64, difficulty: nat) -> bool {
        has_leading_zeros(hex_lower(self.digest_with(nonce)), difficulty)
    }

    /// `n` is the first of the nonces `0..=last` with which the hash starts
    /// with `difficulty` zeros.
    pub open spec fn is_least_nonce(self, n: u64, difficulty: nat, last: u64) -> bool {
        n <= last && self.meets(n, difficulty) && forall|m: u64|
            m < n ==> !self.meets(m, difficulty)
    }

    /// The first of the nonces `0..=last` with which the hash starts with
    /// `difficulty` zeros; `None` where none of them does.
    pub open spec fn least_nonce(self, difficulty: nat, last: u64) -> Option<u64> {
        if exists|n: u64| self.is_least_nonce(n, difficulty, last) {
            Some(choose|n: u64| self.is_least_nonce(n, difficulty, last))
        } else {
            None
        }
    }

    /// The block with `data` as its payload and all else as it is.
    pub open spec fn with_data(self, data: Seq<char>) -> BlockView {
        BlockView {
            index: self.index,
            timestamp: self.timestamp,
            data: data,
            previous_hash: self.previous_hash,
            hash: self.hash,
            nonce: self.nonce,
        }
    }

    /// The block with `nonce` as its nonce and the matching hash.
    pub open spec fn sealed_with(self, nonce: u64) -> BlockView {
        BlockView {
            index: self.index,
            timestamp: self.timestamp,
            data: self.data,
            previous_hash: self.previous_hash,
            hash: hex_lower(self.digest_with(nonce)),
            nonce: nonce,
        }
    }
}

/// A block that is given a nonce and the hash that goes with it is sealed:
/// computing its hash again gives the hash that it holds.
pub proof fn lemma_sealed_with_seals(block: BlockView, nonce: u64)
    ensures
        block.sealed_with(nonce).sealed(),
        block.sealed_with(nonce).expected_hash() == block.sealed_with(nonce).hash,
{
}

/// A hash has 64 characters, whatever the block holds.
pub proof fn lemma_hash_has_64_characters(block: BlockView)
    ensures
        block.expected_hash().len() == 64,
        forall|nonce: u64| #[trigger] block.sealed_with(nonce).hash.len() == 64,
{
}

/// No nonce gives a hash with more than 64 leading zeros: a search at a
/// difficulty above 64 finds nothing.
pub proof fn lemma_no_nonce_above_64(block: BlockView, difficulty: nat, last: u64)
    requires
        difficulty > 64,
    ensures
        forall|nonce: u64| !block.meets(nonce, difficulty),
        block.least_nonce(difficulty, last) is None,
{
    assert forall|nonce: u64| !block.meets(nonce, difficulty) by {
        assert(hex_lower(block.digest_with(nonce)).len() == 64);
    }
}

/// A sealed block whose payload is replaced is no longer sealed, unless
/// SHA-256 gives the old and the new contents the same digest.
pub proof fn lemma_new_payload_breaks_seal(block: BlockView, data: Seq<char>)
    requires
        block.sealed(),
        block.with_data(data).digest_with(block.nonce) != block.digest_with(block.nonce),
    ensures
        !block.with_data(data).sealed(),
{
    if block.with_data(data).sealed() {
        lemma_hex_lower_injective(
            block.with_data(data).digest_with(block.nonce),
            block.digest_with(block.nonce),
        );
    }
}

impl Block {
    /// A block with nonce 0 and the hash of its contents.
    pub fn new(index: u64, timestamp: u128, data: String, previous_hash: String) -> (block: Block)
        ensures
            block@.index == index,
            block@.timestamp == timestamp,
            block@.data == data@,
            block@.previous_hash == previous_hash@,
            block@.nonce == 0,
            block@.sealed(),
            block@.hash.len() == 64,
    {
        let mut block = Block {
            index,
            timestamp,
            data,
            previous_hash,
            hash: String::new(),
            nonce: 0,
        };
        let hash = block.calculate_hash();
        block.hash = hash;
        block
    }

    /// The part of the hashed text that stands before the nonce.
    fn preimage_prefix(&self) -> (text: String)
        ensures
            text@ == decimal(self.index as nat) + decimal(self.timestamp as nat) + self.data@
                + self.previous_hash@,
    {
        let mut text = String::new();
        append_decimal(&mut text, self.index as u128);
        append_decimal(&mut text, self.timestamp);
        text.append(self.data.as_str());
        text.append(self.previous_hash.as_str());
        text
    }

    /// The digest of the hashed text that starts with `prefix` and ends with
    /// the numeral of `nonce`.
    fn digest_after(&self, prefix: &String, nonce: u64) -> (digest: Vec<u8>)
        requires
            prefix@ == decimal(self.index as nat) + decimal(self.timestamp as nat) + self.data@
                + self.previous_hash@,
        ensures
            digest@ == self@.digest_with(nonce),
            digest@.len() == 32,
    {
        let mut text = prefix.clone();
        append_decimal(&mut text, nonce as u128);
        digest(text.as_str().as_bytes())
    }

    /// The hash of the block's five sealed fields, in lower-case hexadecimal.
    pub fn calculate_hash(&self) -> (hash: String)
        ensures
            hash@ == self@.expected_hash(),
            hash@.len() == 64,
    {
        let prefix = self.preimage_prefix();
        let digest = self.digest_after(&prefix, self.nonce);
        to_hex(digest.as_slice())
    }

    /// Whether the block, given `nonce`, would have a hash with `difficulty`
    /// leading zeros.
    pub fn nonce_meets(&self, nonce: u64, difficulty: usize) -> (ok: bool)
        ensures
            ok == self@.meets(nonce, difficulty as nat),
            difficulty > 64 ==> !ok,
    {
        let prefix = self.preimage_prefix();
        let digest = self.digest_after(&prefix, nonce);
        hex_has_leading_zeros(digest.as_slice(), difficulty)
    }

    /// Gives the block the nonce `nonce` and the hash that goes with it.
    pub fn seal(&mut self, nonce: u64)
        ensures
            final(self)@ == old(self)@.sealed_with(nonce),
            final(self)@.sealed(),
            final(self)@.hash.len() == 64,
    {
        self.nonce = nonce;
        let hash = self.calculate_hash();
        self.hash = hash;
    }

    /// Searches the nonces `0..=last` in rising order for the first one that
    /// gives a hash with `difficulty` leading zeros. A hash has 64
    /// characters, so a difficulty above 64 finds nothing.
    pub fn find_nonce(&self, difficulty: usize, last: u64) -> (found: Option<u64>)
        ensures
            found == self@.least_nonce(difficulty as nat, last),
            difficulty > 64 ==> found is None,
            match found {
                Some(n) => self@.is_least_nonce(n, difficulty as nat, last),
                None => forall|m: u64| m <= last ==> !self@.meets(m, difficulty as nat),
            },
    {
        if difficulty > 64 {
            proof {
                lemma_no_nonce_above_64(self@, difficulty as nat, last);
            }
            return None;
        }
        let prefix = self.preimage_prefix();
        let mut nonce: u64 = 0;
        loop
            invariant
                nonce <= last,
                prefix@ == decimal(self.index as nat) + decimal(self.timestamp as nat)
                    + self.data@ + self.previous_hash@,
                forall|m: u64| m < nonce ==> !self@.meets(m, difficulty as nat),
            decreases last - nonce,
        {
            let digest = self.digest_after(&prefix, nonce);
            if hex_has_leading_zeros(digest.as_slice(), difficulty) {
                assert(self@.is_least_nonce(nonce, difficulty as nat, last));
                return Some(nonce);
            }
            if nonce == last {
                return None;
            }
            nonce = nonce + 1;
        }
    }

    /// Proof of work. Tries the nonces from 0 upward and seals the block with
    /// the first one whose hash starts with `difficulty` zeros. Where no nonce
    /// gives such a hash the block is left as it was.
    pub fn mine_block(&mut self, difficulty: usize) -> (found: bool)
        ensures
            found == old(self)@.least_nonce(difficulty as nat, u64::MAX).is_some(),
            found ==> final(self)@ == old(self)@.sealed_with(
                old(self)@.least_nonce(difficulty as nat, u64::MAX).unwrap(),
            ),
            found ==> final(self)@.sealed(),
            found ==> has_leading_zeros(final(self)@.hash, difficulty as nat),
            found ==> final(self)@.hash.len() == 64,
            difficulty > 64 ==> !found,
            !found ==> final(self)@ == old(self)@,
            !found ==> forall|m: u64| !old(self)@.meets(m, difficulty as nat),
    {
        match self.find_nonce(difficulty, u64::MAX) {
            Some(n) => {
                self.seal(n);
                true
            },
            None => false,
        }
    }
}

} // verus!
