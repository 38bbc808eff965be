//! Facade over the synchronisation of several chains: routes fetched blocks
//! to their chain, queues the events in order and answers header, finality
//! and inclusion queries.
use vstd::prelude::*;

use crate::header::{hash_views, merkle_fold, verify_merkle_proof, Hash32, StoredHeader};
use crate::sync::{applies, block_events, resolved, wants, ChainSync, LightClientEvent, FINALITY_DEPTH};

verus! {

/// `i` is the first position in `chains` of the chain `chain_id`.
pub open spec fn first_chain(chains: Seq<ChainSync>, chain_id: u64, i: int) -> bool {
    &&& 0 <= i < chains.len()
    &&& chains[i].chain_id_view() == chain_id
    &&& forall|j: int| 0 <= j < i ==> chains[j].chain_id_view() != chain_id
}

/// `k` is the first position in `headers` of a header with hash `hash`.
pub open spec fn first_header(headers: Seq<StoredHeader>, hash: Seq<u8>, k: int) -> bool {
    &&& 0 <= k < headers.len()
    &&& headers[k].block_hash@ == hash
    &&& forall|j: int| 0 <= j < k ==> headers[j].block_hash@ != hash
}

/// The header that a query for `hash` on chain `chain_id` finds, if any.
pub open spec fn found_header(chains: Seq<ChainSync>, chain_id: u64, hash: Seq<u8>, h: StoredHeader) -> bool {
    exists|i: int, k: int|
        first_chain(chains, chain_id, i) && first_header(chains[i].headers(), hash, k)
            && chains[i].headers()[k] == h
}

/// Synchronisation state of every managed chain, with the queue of events
/// not yet taken.
pub struct LightClient {
    chains: Vec<ChainSync>,
    events: Vec<LightClientEvent>,
}

impl LightClient {
    pub closed spec fn chains_view(&self) -> Seq<ChainSync> {
        self.chains@
    }

    pub closed spec fn pending(&self) -> Seq<LightClientEvent> {
        self.events@
    }

    pub open spec fn wf(&self) -> bool {
        forall|i: int| 0 <= i < self.chains_view().len() ==> (#[trigger] self.chains_view()[i]).wf()
    }

    /// Manages the given chains, with no event pending.
    pub fn new(chains: Vec<ChainSync>) -> (r: Self)
        requires
            forall|i: int| 0 <= i < chains@.len() ==> (#[trigger] chains@[i]).wf(),
        ensures
            r.wf(),
            r.chains_view() == chains@,
            r.pending() == Seq::<LightClientEvent>::empty(),
    {
        LightClient { chains, events: Vec::new() }
    }

    pub fn chain_count(&self) -> (r: usize)
        ensures
            r == self.chains_view().len(),
    {
        self.chains.len()
    }

    /// The chain at position `idx`.
    pub fn chain(&self, idx: usize) -> (r: &ChainSync)
        requires
            idx < self.chains_view().len(),
        ensures
            *r == self.chains_view()[idx as int],
    {
        &self.chains[idx]
    }

    /// Position of the first chain with identifier `chain_id`.
    pub fn find_chain(&self, chain_id: u64) -> (r: Option<usize>)
        ensures
            r.is_none() <==> (forall|i: int| 0 <= i < self.chains_view().len()
                ==> self.chains_view()[i].chain_id_view() != chain_id),
            r.is_some() ==> first_chain(self.chains_view(), chain_id, r.unwrap() as int),
    {
        let mut i: usize = 0;
        while i < self.chains.len()
            invariant
                0 <= i <= self.chains@.len(),
                forall|j: int| 0 <= j < i ==> self.chains@[j].chain_id_view() != chain_id,
            decreases self.chains@.len() - i,
        {
            if self.chains[i].chain_id() == chain_id {
                assert(self.chains_view()[i as int].chain_id_view() == chain_id);
                return Some(i);
            }
            i = i + 1;
        }
        None
    }

    /// The block that a poll of chain `idx`, seeing height `height`, must fetch.
    pub fn block_to_fetch(&self, idx: usize, height: u64) -> (r: Option<u64>)
        requires
            idx < self.chains_view().len(),
        ensures
            r == (if wants(self.chains_view()[idx as int].headers(), height) {
                Some(height)
            } else {
                None::<u64>
            }),
    {
        self.chains[idx].block_to_fetch(height)
    }

    /// Hands chain `idx` the block it returned for `requested`, and queues
    /// the events this produces behind those already pending.
    pub fn on_block(&mut self, idx: usize, requested: u64, block: Option<StoredHeader>)
        requires
            old(self).wf(),
            idx < old(self).chains_view().len(),
        ensures
            final(self).wf(),
            final(self).chains_view().len() == old(self).chains_view().len(),
            forall|j: int| 0 <= j < old(self).chains_view().len() && j != idx
                ==> final(self).chains_view()[j] == old(self).chains_view()[j],
            ({
                let before = old(self).chains_view()[idx as int];
                let after = final(self).chains_view()[idx as int];
                &&& after.chain_id_view() == before.chain_id_view()
                &&& !applies(before.headers(), requested, block) ==> {
                    &&& after.headers() == before.headers()
                    &&& after.finalized_view() == before.finalized_view()
                    &&& final(self).pending() == old(self).pending()
                }
                &&& applies(before.headers(), requested, block) ==> {
                    &&& after.headers() == resolved(before.headers(), block.unwrap())
                    &&& after.finalized_view() == (if requested > FINALITY_DEPTH {
                        (requested - FINALITY_DEPTH) as u64
                    } else {
                        before.finalized_view()
                    })
                    &&& final(self).pending() == old(self).pending()
                        + block_events(before.chain_id_view(), before.headers(), block.unwrap())
                }
            }),
    {
        let mut c = self.chains.remove(idx);
        let produced = c.on_block(requested, block);
        self.chains.insert(idx, c);
        assert(self.chains@ =~= old(self).chains@.update(idx as int, c));
        let mut k: usize = 0;
        let ghost queued = self.events@;
        let ghost chains_now = self.chains@;
        while k < produced.len()
            invariant
                self.chains@ == chains_now,
                0 <= k <= produced@.len(),
                self.events@ == queued + produced@.subrange(0, k as int),
            decreases produced@.len() - k,
        {
            self.events.push(produced[k]);
            k = k + 1;
            assert(self.events@ =~= queued + produced@.subrange(0, k as int));
        }
        assert(produced@.subrange(0, produced@.len() as int) =~= produced@);
        proof {
            assert forall|j: int| 0 <= j < self.chains@.len() implies (#[trigger] self.chains@[j]).wf() by {
                if j != idx {
                    assert(self.chains@[j] == old(self).chains@[j]);
                }
            }
        }
        if produced.len() == 0 {
            assert(self.events@ =~= queued);
        }
    }

    /// Takes the oldest pending event.
    pub fn next_event(&mut self) -> (r: Option<LightClientEvent>)
        ensures
            final(self).chains_view() == old(self).chains_view(),
            old(self).pending().len() == 0 ==> r.is_none() && final(self).pending() == old(self).pending(),
            old(self).pending().len() > 0 ==> r == Some(old(self).pending()[0])
                && final(self).pending() == old(self).pending().drop_first(),
    {
        if self.events.len() == 0 {
            None
        } else {
            let e = self.events.remove(0);
            assert(self.events@ =~= old(self).events@.drop_first());
            Some(e)
        }
    }

    /// The header with hash `block_hash` on chain `chain_id`, if it is stored.
    pub fn get_header(&self, chain_id: u64, block_hash: &Hash32) -> (r: Option<StoredHeader>)
        ensures
            r.is_some() ==> found_header(self.chains_view(), chain_id, block_hash@, r.unwrap()),
            r.is_none() ==> forall|h: StoredHeader| !found_header(self.chains_view(), chain_id, block_hash@, h),
    {
        match self.find_chain(chain_id) {
            None => None,
            Some(i) => {
                let r = self.chains[i].header_by_hash(block_hash);
                proof {
                    let hs = self.chains@[i as int].headers();
                    if r.is_none() {
                        assert forall|h: StoredHeader| !found_header(self.chains_view(), chain_id, block_hash@, h) by {
                            if found_header(self.chains_view(), chain_id, block_hash@, h) {
                                let (i2, k2) = choose|i2: int, k2: int|
                                    first_chain(self.chains_view(), chain_id, i2)
                                        && first_header(self.chains_view()[i2].headers(), block_hash@, k2)
                                        && self.chains_view()[i2].headers()[k2] == h;
                                assert(i2 == i);
                                assert(hs[k2].block_hash@ == block_hash@);
                            }
                        }
                    } else {
                        let k = choose|k: int|
                            0 <= k < hs.len() && hs[k] == r.unwrap() && r.unwrap().block_hash@ == block_hash@
                                && forall|j: int| 0 <= j < k ==> hs[j].block_hash@ != block_hash@;
                        assert(first_header(hs, block_hash@, k));
                    }
                }
                r
            },
        }
    }

    /// The finality watermark of chain `chain_id`, if it is managed.
    pub fn get_finalized(&self, chain_id: u64) -> (r: Option<u64>)
        ensures
            r.is_none() <==> (forall|i: int| 0 <= i < self.chains_view().len()
                ==> self.chains_view()[i].chain_id_view() != chain_id),
            r.is_some() ==> exists|i: int| first_chain(self.chains_view(), chain_id, i)
                && r.unwrap() == self.chains_view()[i].finalized_view(),
    {
        match self.find_chain(chain_id) {
            None => None,
            Some(i) => Some(self.chains[i].finalized()),
        }
    }

    /// Whether `tx_hash` is included, along `proof`, under the transactions
    /// root of the stored header `block_hash` of chain `chain_id`; false when
    /// that header is not stored.
    pub fn verify_inclusion(&self, chain_id: u64, block_hash: &Hash32, tx_hash: &Hash32, proof: &[Hash32]) -> (r: bool)
        ensures
            r <==> exists|h: StoredHeader| found_header(self.chains_view(), chain_id, block_hash@, h)
                && merkle_fold(tx_hash@, hash_views(proof@)) == h.transactions_root@,
    {
        match self.get_header(chain_id, block_hash) {
            None => false,
            Some(h) => {
                let r = verify_merkle_proof(tx_hash, proof, &h.transactions_root);
                proof {
                    if !r {
                        assert forall|h2: StoredHeader| found_header(self.chains_view(), chain_id, block_hash@, h2)
                            implies h2 == h by {
                            lemma_found_unique(self.chains_view(), chain_id, block_hash@, h, h2);
                        }
                    }
                }
                r
            },
        }
    }

    /// Drops the events not yet taken; the chains' state is kept.
    pub fn shutdown(&mut self)
        ensures
            final(self).chains_view() == old(self).chains_view(),
            final(self).pending() == Seq::<LightClientEvent>::empty(),
    {
        self.events.clear();
    }
}

/// A header query has at most one answer.
pub proof fn lemma_found_unique(chains: Seq<ChainSync>, chain_id: u64, hash: Seq<u8>, a: StoredHeader, b: StoredHeader)
    requires
        found_header(chains, chain_id, hash, a),
        found_header(chains, chain_id, hash, b),
    ensures
        a == b,
{
    let (i1, k1) = choose|i: int, k: int|
        first_chain(chains, chain_id, i) && first_header(chains[i].headers(), hash, k) && chains[i].headers()[k] == a;
    let (i2, k2) = choose|i: int, k: int|
        first_chain(chains, chain_id, i) && first_header(chains[i].headers(), hash, k) && chains[i].headers()[k] == b;
    assert(i1 == i2) by {
        if i1 < i2 {
            assert(chains[i1].chain_id_view() != chain_id);
        } else if i2 < i1 {
            assert(chains[i2].chain_id_view() != chain_id);
        }
    }
    assert(k1 == k2) by {
        if k1 < k2 {
            assert(chains[i1].headers()[k1].block_hash@ != hash);
        } else if k2 < k1 {
            assert(chains[i1].headers()[k2].block_hash@ != hash);
        }
    }
}

} // verus!
