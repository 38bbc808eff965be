//! Per-chain synchronisation: bootstrap backfill, the poll decision and the
//! append-or-reorg step. Fetching from the chain is left to the caller, which
//! hands each fetched block back here.
use vstd::prelude::*;

use crate::header::{hash_eq, Hash32, StoredHeader};
use crate::header_store::{
    ancestor_len, evict, lemma_ancestor_len_bound, strictly_increasing, HeaderStore, MAX_HEADERS,
};

verus! {

/// Confirmations after which a block is treated as final.
pub const FINALITY_DEPTH: u64 = 15;

/// What a chain's synchronisation reports.
#[derive(Clone, Copy, Debug)]
pub enum LightClientEvent {
    /// A block was appended to the chain's history.
    NewBlock { chain_id: u64, block_number: u64, block_hash: Hash32 },
    /// Stored headers were discarded to reconnect a new block.
    Reorg { chain_id: u64, depth: u64 },
}

pub open spec fn sat_sub(a: u64, b: u64) -> u64 {
    if a >= b { (a - b) as u64 } else { 0 }
}

/// First block number fetched when bootstrapping at `height`.
pub open spec fn backfill_start(height: u64) -> u64 {
    sat_sub(height, (2 * FINALITY_DEPTH) as u64)
}

/// The headers kept from a backfill starting at `start`, where `fetched[i]`
/// is what the chain returned for block `start + i`: answers that are missing
/// or carry another number are skipped.
pub open spec fn backfill_headers(start: int, fetched: Seq<Option<StoredHeader>>) -> Seq<StoredHeader>
    decreases fetched.len(),
{
    if fetched.len() == 0 {
        Seq::empty()
    } else {
        let prev = backfill_headers(start, fetched.drop_last());
        let last = fetched.last();
        if last.is_some() && last.unwrap().block_number == start + fetched.len() - 1 {
            prev.push(last.unwrap())
        } else {
            prev
        }
    }
}

pub proof fn lemma_backfill_headers(start: int, fetched: Seq<Option<StoredHeader>>)
    ensures
        backfill_headers(start, fetched).len() <= fetched.len(),
        strictly_increasing(backfill_headers(start, fetched)),
        forall|k: int| 0 <= k < backfill_headers(start, fetched).len() ==>
            start <= #[trigger] backfill_headers(start, fetched)[k].block_number < start + fetched.len(),
    decreases fetched.len(),
{
    if fetched.len() > 0 {
        lemma_backfill_headers(start, fetched.drop_last());
    }
}

/// Whether a poll that sees `height` has a block to fetch.
pub open spec fn wants(headers: Seq<StoredHeader>, height: u64) -> bool {
    headers.len() == 0 || headers.last().block_number < height
}

/// The history after `h` is connected: headers above its parent are dropped,
/// `h` is appended, and the oldest go past the bound.
pub open spec fn resolved(headers: Seq<StoredHeader>, h: StoredHeader) -> Seq<StoredHeader> {
    evict(headers.subrange(0, ancestor_len(headers, h.parent_hash@) as int).push(h))
}

/// How many stored headers connecting `h` discards.
pub open spec fn reorg_depth(headers: Seq<StoredHeader>, h: StoredHeader) -> nat {
    (headers.len() - ancestor_len(headers, h.parent_hash@)) as nat
}

/// Whether the block handed back for `requested` is taken.
pub open spec fn applies(headers: Seq<StoredHeader>, requested: u64, block: Option<StoredHeader>) -> bool {
    block.is_some() && block.unwrap().block_number == requested && wants(headers, requested)
}

/// The events reported for taking `h`.
pub open spec fn block_events(chain_id: u64, headers: Seq<StoredHeader>, h: StoredHeader) -> Seq<LightClientEvent> {
    let added = LightClientEvent::NewBlock {
        chain_id,
        block_number: h.block_number,
        block_hash: h.block_hash,
    };
    if reorg_depth(headers, h) > 0 {
        seq![LightClientEvent::Reorg { chain_id, depth: reorg_depth(headers, h) as u64 }, added]
    } else {
        seq![added]
    }
}

/// Taking a block keeps the stored block numbers strictly increasing and
/// within the bound.
pub proof fn lemma_resolved_ordered(headers: Seq<StoredHeader>, requested: u64, block: Option<StoredHeader>)
    requires
        strictly_increasing(headers),
        headers.len() <= MAX_HEADERS,
        applies(headers, requested, block),
    ensures
        strictly_increasing(resolved(headers, block.unwrap())),
        resolved(headers, block.unwrap()).len() <= MAX_HEADERS,
        resolved(headers, block.unwrap()).last() == block.unwrap(),
{
    let h = block.unwrap();
    lemma_ancestor_len_bound(headers, h.parent_hash@);
    let k = ancestor_len(headers, h.parent_hash@) as int;
    let p = headers.subrange(0, k).push(h);
    assert forall|i: int, j: int| 0 <= i < j < p.len() implies p[i].block_number < p[j].block_number by {
        if j == p.len() - 1 {
            assert(headers[i].block_number <= headers.last().block_number);
        }
    }
    let r = evict(p);
    assert forall|i: int, j: int| 0 <= i < j < r.len() implies r[i].block_number < r[j].block_number by {
        if p.len() > MAX_HEADERS {
            assert(r[i] == p[i + p.len() - MAX_HEADERS]);
            assert(r[j] == p[j + p.len() - MAX_HEADERS]);
        }
    }
}

/// With stored headers `[h0, h1, h2]` and a new block whose parent is `h0`
/// (and neither `h1` nor `h2`), resolution discards `h2` and `h1`, a depth of
/// two, and leaves `[h0, new]`.
pub proof fn lemma_reorg_to_grandparent(h0: StoredHeader, h1: StoredHeader, h2: StoredHeader, new: StoredHeader)
    requires
        new.parent_hash@ == h0.block_hash@,
        new.parent_hash@ != h1.block_hash@,
        new.parent_hash@ != h2.block_hash@,
    ensures
        resolved(seq![h0, h1, h2], new) == seq![h0, new],
        reorg_depth(seq![h0, h1, h2], new) == 2,
        block_events(7, seq![h0, h1, h2], new)[0] == (LightClientEvent::Reorg { chain_id: 7, depth: 2 }),
{
    let s = seq![h0, h1, h2];
    let parent = new.parent_hash@;
    assert(s.drop_last() =~= seq![h0, h1]);
    assert(s.drop_last().drop_last() =~= seq![h0]);
    assert(seq![h0].last() == h0);
    assert(ancestor_len(seq![h0], parent) == 1);
    assert(seq![h0, h1].last() == h1);
    assert(seq![h0, h1].drop_last() =~= seq![h0]);
    assert(ancestor_len(seq![h0, h1], parent) == 1);
    assert(s.last() == h2);
    assert(ancestor_len(s, parent) == 1);
    assert(s.subrange(0, 1).push(new) =~= seq![h0, new]);
}

/// One chain's synchronisation state.
pub struct ChainSync {
    chain_id: u64,
    store: HeaderStore,
    finalized_height: u64,
}

impl ChainSync {
    pub closed spec fn chain_id_view(&self) -> u64 {
        self.chain_id
    }

    pub closed spec fn headers(&self) -> Seq<StoredHeader> {
        self.store@
    }

    pub closed spec fn finalized_view(&self) -> u64 {
        self.finalized_height
    }

    pub closed spec fn wf(&self) -> bool {
        self.store.wf()
    }

    /// The finality watermark is not above the newest stored block.
    pub open spec fn finality_consistent(&self) -> bool {
        self.headers().len() > 0 ==> self.finalized_view() <= self.headers().last().block_number
    }

    /// A well-formed state keeps block numbers strictly increasing within
    /// the retention bound.
    pub proof fn lemma_wf(&self)
        requires
            self.wf(),
        ensures
            self.headers().len() <= MAX_HEADERS,
            strictly_increasing(self.headers()),
    {
    }

    /// First block number to fetch when bootstrapping at `height`.
    pub fn first_backfill_block(height: u64) -> (r: u64)
        ensures
            r == backfill_start(height),
    {
        height.saturating_sub(2 * FINALITY_DEPTH)
    }

    /// Builds a chain's state from a backfill at `height`: `fetched[i]` is what
    /// the chain returned for block `first_backfill_block(height) + i`.
    pub fn bootstrap(chain_id: u64, height: u64, fetched: &Vec<Option<StoredHeader>>) -> (r: Self)
        requires
            fetched@.len() == height - backfill_start(height) + 1,
        ensures
            r.wf(),
            r.chain_id_view() == chain_id,
            r.headers() == backfill_headers(backfill_start(height) as int, fetched@),
            r.finalized_view() == sat_sub(height, FINALITY_DEPTH),
            fetched@.last() == Some(StoredHeader { block_number: height, ..fetched@.last().unwrap() })
                ==> r.finality_consistent(),
    {
        let start = Self::first_backfill_block(height);
        let mut store = HeaderStore::new();
        let mut i: usize = 0;
        while i < fetched.len()
            invariant
                fetched@.len() == height - start + 1,
                start == backfill_start(height),
                0 <= i <= fetched@.len(),
                store.wf(),
                store@ == backfill_headers(start as int, fetched@.subrange(0, i as int)),
            decreases fetched@.len() - i,
        {
            let ghost pre = fetched@.subrange(0, i as int);
            let ghost next = fetched@.subrange(0, i + 1);
            proof {
                assert(next.drop_last() =~= pre);
                lemma_backfill_headers(start as int, pre);
            }
            let number: u64 = start + i as u64;
            match fetched[i] {
                Some(h) => {
                    if h.block_number == number {
                        proof {
                            if store@.len() > 0 {
                                let k = store@.len() - 1;
                                assert(store@[k].block_number < start + pre.len());
                            }
                        }
                        store.append(h);
                        proof {
                            lemma_backfill_headers(start as int, next);
                        }
                    }
                },
                None => {},
            }
            i = i + 1;
        }
        assert(fetched@.subrange(0, fetched@.len() as int) =~= fetched@);
        proof {
            lemma_backfill_headers(start as int, fetched@);
            let s = store@;
            if s.len() > 0 {
                assert(s[s.len() - 1].block_number <= height);
            }
        }
        ChainSync { chain_id, store, finalized_height: height.saturating_sub(FINALITY_DEPTH) }
    }

    pub fn chain_id(&self) -> (r: u64)
        ensures
            r == self.chain_id_view(),
    {
        self.chain_id
    }

    /// The finality watermark.
    pub fn finalized(&self) -> (r: u64)
        ensures
            r == self.finalized_view(),
    {
        self.finalized_height
    }

    /// The newest stored header, if any.
    pub fn latest(&self) -> (r: Option<StoredHeader>)
        ensures
            self.headers().len() == 0 ==> r.is_none(),
            self.headers().len() > 0 ==> r == Some(self.headers().last()),
    {
        self.store.tail()
    }

    /// The first stored header whose hash is `hash`, if any.
    pub fn header_by_hash(&self, hash: &Hash32) -> (r: Option<StoredHeader>)
        ensures
            r.is_none() <==> (forall|i: int| 0 <= i < self.headers().len() ==> self.headers()[i].block_hash@ != hash@),
            r.is_some() ==> exists|i: int|
                0 <= i < self.headers().len() && self.headers()[i] == r.unwrap()
                    && r.unwrap().block_hash@ == hash@
                    && forall|j: int| 0 <= j < i ==> self.headers()[j].block_hash@ != hash@,
    {
        let r = self.store.lookup_by_hash(hash);
        assert(self.headers() == self.store@);
        r
    }

    /// The block a poll that sees chain height `height` must fetch: none when
    /// the height is not above the newest stored block.
    pub fn block_to_fetch(&self, height: u64) -> (r: Option<u64>)
        ensures
            r == (if wants(self.headers(), height) { Some(height) } else { None::<u64> }),
    {
        match self.store.tail() {
            None => Some(height),
            Some(t) => if height > t.block_number { Some(height) } else { None },
        }
    }

    /// Takes the block that the chain returned for `requested`. A missing
    /// block, one with another number, or one not above the newest stored
    /// block changes nothing. Otherwise stored headers above the block's
    /// parent are discarded, the block is appended, the watermark follows it,
    /// and the reorg (if any headers went) and the new block are reported.
    pub fn on_block(&mut self, requested: u64, block: Option<StoredHeader>) -> (events: Vec<LightClientEvent>)
        requires
            old(self).wf(),
        ensures
            final(self).wf(),
            final(self).chain_id_view() == old(self).chain_id_view(),
            !applies(old(self).headers(), requested, block) ==> {
                &&& final(self).headers() == old(self).headers()
                &&& final(self).finalized_view() == old(self).finalized_view()
                &&& events@.len() == 0
            },
            applies(old(self).headers(), requested, block) ==> {
                &&& final(self).headers() == resolved(old(self).headers(), block.unwrap())
                &&& final(self).finalized_view() == (if requested > FINALITY_DEPTH {
                    (requested - FINALITY_DEPTH) as u64
                } else {
                    old(self).finalized_view()
                })
                &&& events@ == block_events(old(self).chain_id_view(), old(self).headers(), block.unwrap())
            },
            old(self).finality_consistent() && (old(self).headers().len() > 0
                || old(self).finalized_view() <= requested) ==> final(self).finality_consistent(),
    {
        let mut events: Vec<LightClientEvent> = Vec::new();
        let h = match block {
            None => return events,
            Some(h) => h,
        };
        if h.block_number != requested {
            return events;
        }
        match self.store.tail() {
            Some(t) => if t.block_number >= requested {
                return events;
            },
            None => {},
        }
        let ghost old_headers = self.store@;
        proof {
            lemma_ancestor_len_bound(old_headers, h.parent_hash@);
        }
        let depth = self.store.truncate_to_parent(&h.parent_hash);
        proof {
            let s = self.store@;
            if s.len() > 0 {
                assert(s[s.len() - 1] == old_headers[s.len() - 1]);
                assert(old_headers[s.len() - 1].block_number <= old_headers.last().block_number);
            }
        }
        if depth > 0 {
            events.push(LightClientEvent::Reorg { chain_id: self.chain_id, depth });
        }
        self.store.append(h);
        if requested > FINALITY_DEPTH {
            self.finalized_height = requested - FINALITY_DEPTH;
        }
        events.push(LightClientEvent::NewBlock {
            chain_id: self.chain_id,
            block_number: h.block_number,
            block_hash: h.block_hash,
        });
        proof {
            let s = self.store@;
            let pre = old_headers.subrange(0, ancestor_len(old_headers, h.parent_hash@) as int);
            assert(s.last() == pre.push(h).last());
        }
        assert(events@ =~= block_events(self.chain_id, old_headers, h));
        events
    }
}

} // verus!
