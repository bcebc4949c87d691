//! The peers that a node knows, and what it asks of them.

use crate::block::{block_views, Block, BlockView};
use crate::blockchain::{fork_adopted, replay, Blockchain};
use crate::text::string_views;
use crate::transaction::Transaction;
use vstd::prelude::*;
use vstd::string::*;

verus! {

/// The set of known peers, each by its address. No address is held twice,
/// and the set never shrinks. The addresses stand in a list, so that a
/// broadcast can go through them; what the peer set means is the set of its
/// view.
pub struct Network {
    peers: Vec<String>,
}

/// No two positions of `items` hold the same text.
pub open spec fn all_distinct(items: Seq<Seq<char>>) -> bool {
    forall|i: int, j: int| 0 <= i < j < items.len() ==> items[i] != items[j]
}

/// The chain that a node holds after it has been offered the chains
/// `offers` in turn, starting from `local`: each offer that is longer than
/// the chain held by then, and valid, takes its place.
pub open spec fn synchronized(local: Seq<BlockView>, offers: Seq<Seq<BlockView>>) -> Seq<BlockView>
    decreases offers.len(),
{
    if offers.len() == 0 {
        local
    } else {
        let held = synchronized(local, offers.drop_last());
        if fork_adopted(held, offers.last()) {
            offers.last()
        } else {
            held
        }
    }
}

/// How many of the chains `offers`, offered in turn to a node that starts
/// with `local`, are adopted.
pub open spec fn adoptions(local: Seq<BlockView>, offers: Seq<Seq<BlockView>>) -> nat
    decreases offers.len(),
{
    if offers.len() == 0 {
        0
    } else {
        adoptions(local, offers.drop_last()) + if fork_adopted(
            synchronized(local, offers.drop_last()),
            offers.last(),
        ) {
            1nat
        } else {
            0nat
        }
    }
}

/// `at` is the place of the first line end in `bytes`.
pub open spec fn is_first_line_end(bytes: Seq<u8>, at: int) -> bool {
    &&& 0 <= at < bytes.len()
    &&& bytes[at] == 10
    &&& forall|j: int| 0 <= j < at ==> bytes[j] != 10
}

/// Takes the first frame off the bytes received so far. A frame is what
/// stands before a line end; the line end goes with it and is not part of
/// it. `None`, and nothing taken, while no line end has come.
pub fn take_frame(pending: &mut Vec<u8>) -> (frame: Option<Vec<u8>>)
    ensures
        match frame {
            Some(bytes) => {
                &&& is_first_line_end(old(pending)@, bytes@.len() as int)
                &&& bytes@ == old(pending)@.take(bytes@.len() as int)
                &&& final(pending)@ == old(pending)@.skip(bytes@.len() as int + 1)
            },
            None => final(pending)@ == old(pending)@ && forall|j: int|
                0 <= j < old(pending)@.len() ==> old(pending)@[j] != 10,
        },
{
    let mut at: usize = 0;
    while at < pending.len() && pending[at] != 10
        invariant
            at <= pending.len(),
            pending@ == old(pending)@,
            forall|j: int| 0 <= j < at ==> pending@[j] != 10,
        decreases pending.len() - at,
    {
        at = at + 1;
    }
    if at == pending.len() {
        return None;
    }
    let mut rest = pending.split_off(at + 1);
    pending.pop();
    std::mem::swap(pending, &mut rest);
    assert(rest@ =~= old(pending)@.take(at as int));
    assert(pending@ =~= old(pending)@.skip(at + 1));
    Some(rest)
}

/// What a peer sends: a transaction for the queue, or a chain that it offers
/// in place of the one held.
pub enum Message {
    NewTransaction(Transaction),
    CandidateChain(Vec<Block>),
}

/// Takes in what a peer sent. A transaction goes to the queue, which admits
/// it unless its amount is zero; a chain is adopted if it is longer than the
/// chain held and valid. Says whether the transaction was admitted or the
/// chain adopted.
pub fn handle_message(blockchain: &mut Blockchain, message: Message) -> (accepted: bool)
    ensures
        message matches Message::NewTransaction(transaction) ==> {
            &&& accepted == (transaction.amount > 0)
            &&& final(blockchain).transaction_pool@ == if accepted {
                old(blockchain).transaction_pool@.push(transaction@)
            } else {
                old(blockchain).transaction_pool@
            }
            &&& final(blockchain).chain == old(blockchain).chain
            &&& final(blockchain).balances == old(blockchain).balances
            &&& final(blockchain).difficulty == old(blockchain).difficulty
        },
        message matches Message::CandidateChain(chain) ==> {
            &&& accepted == fork_adopted(old(blockchain).blocks(), block_views(chain@))
            &&& accepted ==> final(blockchain).chain == chain
            &&& accepted ==> final(blockchain).balances@ == replay(
                old(blockchain).balances.opening(),
                block_views(chain@),
            )
            &&& accepted ==> final(blockchain).balances.opening()
                == old(blockchain).balances.opening()
            &&& accepted ==> final(blockchain).difficulty == old(blockchain).difficulty
            &&& accepted ==> final(blockchain).transaction_pool == old(blockchain).transaction_pool
            &&& !accepted ==> *final(blockchain) == *old(blockchain)
        },
{
    match message {
        Message::NewTransaction(transaction) => blockchain.transaction_pool.add_transaction(
            transaction,
        ),
        Message::CandidateChain(chain) => blockchain.resolve_fork(chain),
    }
}

impl View for Network {
    type V = Set<Seq<char>>;

    closed spec fn view(&self) -> Set<Seq<char>> {
        string_views(self.peers@).to_set()
    }
}

impl Network {
    #[verifier::type_invariant]
    spec fn distinct(self) -> bool {
        all_distinct(string_views(self.peers@))
    }

    /// A node that knows no peer.
    pub fn new() -> (network: Network)
        ensures
            network@ == Set::<Seq<char>>::empty(),
    {
        Network { peers: Vec::new() }
    }

    /// Whether `address` is a known peer.
    pub fn knows(&self, address: &str) -> (known: bool)
        ensures
            known == self@.contains(address@),
    {
        let wanted = address.to_owned();
        let mut i: usize = 0;
        while i < self.peers.len()
            invariant
                i <= self.peers.len(),
                wanted@ == address@,
                forall|k: int| 0 <= k < i ==> string_views(self.peers@)[k] != wanted@,
            decreases self.peers.len() - i,
        {
            if self.peers[i] == wanted {
                assert(string_views(self.peers@)[i as int] == wanted@);
                return true;
            }
            i = i + 1;
        }
        false
    }

    /// Makes `address` a known peer. Adding a known peer changes nothing.
    pub fn add_peer(&mut self, address: String)
        ensures
            final(self)@ == old(self)@.insert(address@),
    {
        proof {
            use_type_invariant(&*self);
        }
        if !self.knows(address.as_str()) {
            let mut peers: Vec<String> = Vec::new();
            std::mem::swap(&mut peers, &mut self.peers);
            let ghost before = string_views(peers@);
            peers.push(address);
            assert(string_views(peers@) =~= before.push(address@));
            assert forall|name: Seq<char>| #[trigger]
                before.push(address@).contains(name) <==> before.to_set().insert(
                    address@,
                ).contains(name) by {
                if before.contains(name) {
                    let i = choose|i: int| 0 <= i < before.len() && before[i] == name;
                    assert(before.push(address@)[i] == name);
                }
                if name == address@ {
                    assert(before.push(address@)[before.len() as int] == name);
                }
            }
            self.peers = peers;
        }
    }

    /// How many peers are known.
    pub fn peer_count(&self) -> (n: usize)
        ensures
            n == self@.len(),
            self@.finite(),
    {
        proof {
            use_type_invariant(self);
            string_views(self.peers@).unique_seq_to_set();
        }
        self.peers.len()
    }

    /// The addresses of the known peers, each once.
    pub fn peers(&self) -> (addresses: Vec<String>)
        ensures
            string_views(addresses@).to_set() == self@,
            all_distinct(string_views(addresses@)),
    {
        proof {
            use_type_invariant(self);
        }
        let mut addresses: Vec<String> = Vec::new();
        let mut i: usize = 0;
        while i < self.peers.len()
            invariant
                i <= self.peers.len(),
                addresses.len() == i,
                forall|k: int| 0 <= k < i ==> #[trigger] addresses@[k]@ == self.peers@[k]@,
            decreases self.peers.len() - i,
        {
            addresses.push(self.peers[i].clone());
            i = i + 1;
        }
        assert(string_views(addresses@) =~= string_views(self.peers@));
        addresses
    }

    /// The peers to ask for the peers that they know: all known peers. What
    /// they answer goes to `merge_peers`.
    pub fn discover_peers(&self) -> (to_ask: Vec<String>)
        ensures
            string_views(to_ask@).to_set() == self@,
            all_distinct(string_views(to_ask@)),
    {
        self.peers()
    }

    /// Makes every address of `found` a known peer.
    pub fn merge_peers(&mut self, found: Vec<String>)
        ensures
            final(self)@ == old(self)@.union(string_views(found@).to_set()),
    {
        let mut i: usize = 0;
        while i < found.len()
            invariant
                i <= found.len(),
                self@ == old(self)@.union(string_views(found@).take(i as int).to_set()),
            decreases found.len() - i,
        {
            let ghost seen = string_views(found@).take(i as int);
            let ghost next = string_views(found@).take(i + 1);
            assert forall|name: Seq<char>| #[trigger]
                next.to_set().contains(name) <==> seen.to_set().insert(found@[i as int]@).contains(
                    name,
                ) by {
                if name == found@[i as int]@ {
                    assert(next[i as int] == name);
                }
            }
            self.add_peer(found[i].clone());
            i = i + 1;
        }
        assert(string_views(found@).take(i as int) =~= string_views(found@));
    }

    /// The deliveries that a broadcast of `message` asks for: one copy of the
    /// message for every known peer.
    pub fn broadcast_message(&self, message: &str) -> (deliveries: Vec<(String, String)>)
        ensures
            deliveries@.len() == self@.len(),
            forall|i: int| 0 <= i < deliveries@.len() ==> (#[trigger] deliveries@[i]).1@ == message@,
            Seq::new(deliveries@.len(), |i: int| deliveries@[i].0@).to_set() == self@,
            all_distinct(Seq::new(deliveries@.len(), |i: int| deliveries@[i].0@)),
    {
        proof {
            use_type_invariant(self);
            string_views(self.peers@).unique_seq_to_set();
        }
        let mut deliveries: Vec<(String, String)> = Vec::new();
        let mut i: usize = 0;
        while i < self.peers.len()
            invariant
                i <= self.peers.len(),
                deliveries@.len() == i,
                forall|k: int| 0 <= k < i ==> (#[trigger] deliveries@[k]).1@ == message@,
                forall|k: int| 0 <= k < i ==> (#[trigger] deliveries@[k]).0@ == self.peers@[k]@,
            decreases self.peers.len() - i,
        {
            deliveries.push((self.peers[i].clone(), message.to_owned()));
            i = i + 1;
        }
        assert(Seq::new(deliveries@.len(), |i: int| deliveries@[i].0@) =~= string_views(
            self.peers@,
        ));
        deliveries
    }

    /// One pass of synchronization. `fetched` holds, for each peer that was
    /// asked, its address and the chain that it sent. The chains of known
    /// peers are offered to `blockchain` in turn; what an unknown address
    /// sent is passed over. Says how many chains were adopted. Where one
    /// was, the balances are those of the chain held at the end, rebuilt from
    /// the opening balances.
    pub fn synchronize(&self, blockchain: &mut Blockchain, fetched: Vec<(String, Vec<Block>)>) -> (adopted:
        usize)
        ensures
            final(blockchain).blocks() == synchronized(
                old(blockchain).blocks(),
                self.offers(fetched@),
            ),
            adopted == adoptions(old(blockchain).blocks(), self.offers(fetched@)),
            adopted == 0 ==> *final(blockchain) == *old(blockchain),
            adopted > 0 ==> final(blockchain).balances@ == replay(
                old(blockchain).balances.opening(),
                final(blockchain).blocks(),
            ),
            final(blockchain).balances.opening() == old(blockchain).balances.opening(),
            final(blockchain).difficulty == old(blockchain).difficulty,
            final(blockchain).transaction_pool == old(blockchain).transaction_pool,
    {
        let mut fetched = fetched;
        let ghost all = fetched@;
        let mut adopted: usize = 0;
        let mut i: usize = 0;
        let total = fetched.len();
        while i < total
            invariant
                i <= total,
                total == all.len(),
                adopted <= i,
                adopted == adoptions(old(blockchain).blocks(), self.offers(all.take(i as int))),
                fetched@.len() == total - i,
                fetched@ == all.skip(i as int),
                blockchain.blocks() == synchronized(
                    old(blockchain).blocks(),
                    self.offers(all.take(i as int)),
                ),
                adopted == 0 ==> *blockchain == *old(blockchain),
                adopted > 0 ==> blockchain.balances@ == replay(
                    old(blockchain).balances.opening(),
                    blockchain.blocks(),
                ),
                blockchain.balances.opening() == old(blockchain).balances.opening(),
                blockchain.difficulty == old(blockchain).difficulty,
                blockchain.transaction_pool == old(blockchain).transaction_pool,
            decreases total - i,
        {
            let (address, chain) = fetched.remove(0);
            assert(all.take(i + 1).drop_last() =~= all.take(i as int));
            let ghost before = self.offers(all.take(i as int));
            if self.knows(address.as_str()) {
                assert(before.push(block_views(chain@)).drop_last() =~= before);
                if blockchain.resolve_fork(chain) {
                    adopted = adopted + 1;
                }
            }
            i = i + 1;
        }
        assert(all.take(i as int) =~= all);
        adopted
    }

    /// The chains among `fetched` that known peers sent, in order.
    pub open spec fn offers(&self, fetched: Seq<(String, Vec<Block>)>) -> Seq<Seq<BlockView>>
        decreases fetched.len(),
    {
        if fetched.len() == 0 {
            Seq::empty()
        } else {
            let rest = self.offers(fetched.drop_last());
            if self@.contains(fetched.last().0@) {
                rest.push(block_views(fetched.last().1@))
            } else {
                rest
            }
        }
    }
}

} // verus!
