//! Ordered, bounded history of the recent headers of one chain.
use vstd::prelude::*;

use crate::header::{hash_eq, Hash32, StoredHeader};

verus! {

/// At most this many headers are retained; the oldest go first.
pub const MAX_HEADERS: usize = 1000;

/// Block numbers strictly increase along the sequence.
pub open spec fn strictly_increasing(s: Seq<StoredHeader>) -> bool {
    forall|i: int, j: int|
        0 <= i < j < s.len() ==> s[i].block_number < s[j].block_number
}

/// What is left of `s` once the oldest entries past the bound are dropped.
pub open spec fn evict(s: Seq<StoredHeader>) -> Seq<StoredHeader> {
    if s.len() > MAX_HEADERS {
        s.subrange(s.len() - MAX_HEADERS, s.len() as int)
    } else {
        s
    }
}

/// Length of the longest prefix of `hs` that ends with a header whose hash is
/// `parent`; zero when no header has that hash.
pub open spec fn ancestor_len(hs: Seq<StoredHeader>, parent: Seq<u8>) -> nat
    decreases hs.len(),
{
    if hs.len() == 0 {
        0
    } else if hs.last().block_hash@ == parent {
        hs.len()
    } else {
        ancestor_len(hs.drop_last(), parent)
    }
}

/// The kept prefix is no longer than the sequence and, when not empty, ends
/// with the header whose hash is `parent`.
pub proof fn lemma_ancestor_len_bound(hs: Seq<StoredHeader>, parent: Seq<u8>)
    ensures
        ancestor_len(hs, parent) <= hs.len(),
        ancestor_len(hs, parent) == 0 || hs[ancestor_len(hs, parent) - 1].block_hash@ == parent,
    decreases hs.len(),
{
    if hs.len() > 0 && hs.last().block_hash@ != parent {
        lemma_ancestor_len_bound(hs.drop_last(), parent);
    }
}

/// Appending to a full store drops exactly the oldest header: the bound holds
/// again, the appended header is the tail, and the rest keep their order.
pub proof fn lemma_eviction_keeps_tail(s: Seq<StoredHeader>, h: StoredHeader)
    requires
        s.len() == MAX_HEADERS,
    ensures
        evict(s.push(h)) == s.drop_first().push(h),
        evict(s.push(h)).len() == MAX_HEADERS,
        evict(s.push(h)).last() == h,
{
    assert(evict(s.push(h)) =~= s.drop_first().push(h));
}

/// Appending below the bound drops nothing.
pub proof fn lemma_no_eviction_below_bound(s: Seq<StoredHeader>, h: StoredHeader)
    requires
        s.len() < MAX_HEADERS,
    ensures
        evict(s.push(h)) == s.push(h),
{
}

/// Headers of one chain, oldest first.
pub struct HeaderStore {
    headers: Vec<StoredHeader>,
}

impl View for HeaderStore {
    type V = Seq<StoredHeader>;

    closed spec fn view(&self) -> Seq<StoredHeader> {
        self.headers@
    }
}

impl HeaderStore {
    /// Strictly increasing block numbers, within the retention bound.
    pub open spec fn wf(&self) -> bool {
        self@.len() <= MAX_HEADERS && strictly_increasing(self@)
    }

    /// Whether `h` may be appended: it is newer than the current tail.
    pub open spec fn accepts(&self, h: StoredHeader) -> bool {
        self@.len() == 0 || self@.last().block_number < h.block_number
    }

    pub fn new() -> (r: Self)
        ensures
            r@ == Seq::<StoredHeader>::empty(),
            r.wf(),
    {
        HeaderStore { headers: Vec::new() }
    }

    pub fn len(&self) -> (r: usize)
        ensures
            r == self@.len(),
    {
        self.headers.len()
    }

    /// The newest header, if any.
    pub fn tail(&self) -> (r: Option<StoredHeader>)
        ensures
            self@.len() == 0 ==> r.is_none(),
            self@.len() > 0 ==> r == Some(self@.last()),
    {
        if self.headers.len() == 0 {
            None
        } else {
            Some(self.headers[self.headers.len() - 1])
        }
    }

    /// Pushes `h` onto the tail, then drops headers from the head while more
    /// than the bound remain.
    pub fn append(&mut self, h: StoredHeader)
        requires
            old(self).wf(),
            old(self).accepts(h),
        ensures
            final(self)@ == evict(old(self)@.push(h)),
            final(self).wf(),
    {
        self.headers.push(h);
        proof {
            let s = self.headers@;
            assert forall|i: int, j: int| 0 <= i < j < s.len() implies
                s[i].block_number < s[j].block_number by {
                if j == s.len() - 1 && i < j {
                    assert(old(self)@[i].block_number <= old(self)@.last().block_number);
                }
            }
        }
        let ghost full = self.headers@;
        if self.headers.len() > MAX_HEADERS {
            self.headers.remove(0);
            assert(self.headers@ =~= full.subrange(full.len() - MAX_HEADERS, full.len() as int));
        }
    }

    /// Pops headers from the tail until the tail's hash is `parent`, or the
    /// store is empty; returns how many were popped.
    pub fn truncate_to_parent(&mut self, parent: &Hash32) -> (depth: u64)
        requires
            old(self).wf(),
        ensures
            final(self)@ == old(self)@.subrange(0, ancestor_len(old(self)@, parent@) as int),
            depth == old(self)@.len() - ancestor_len(old(self)@, parent@),
            final(self).wf(),
    {
        let ghost orig = self.headers@;
        proof { lemma_ancestor_len_bound(orig, parent@); }
        let mut depth: u64 = 0;
        while self.headers.len() > 0 && !hash_eq(&self.headers[self.headers.len() - 1].block_hash, parent)
            invariant
                orig.len() <= MAX_HEADERS,
                strictly_increasing(orig),
                self.headers@ == orig.subrange(0, self.headers@.len() as int),
                ancestor_len(self.headers@, parent@) == ancestor_len(orig, parent@),
                depth == orig.len() - self.headers@.len(),
            decreases self.headers@.len(),
        {
            let ghost before = self.headers@;
            self.headers.pop();
            assert(self.headers@ =~= before.drop_last());
            assert(self.headers@ =~= orig.subrange(0, self.headers@.len() as int));
            depth = depth + 1;
        }
        proof {
            let s = self.headers@;
            if s.len() > 0 {
                assert(ancestor_len(s, parent@) == s.len());
            }
        }
        depth
    }

    /// The first header whose hash is `hash`, if any.
    pub fn lookup_by_hash(&self, hash: &Hash32) -> (r: Option<StoredHeader>)
        ensures
            r.is_none() <==> (forall|i: int| 0 <= i < self@.len() ==> self@[i].block_hash@ != hash@),
            r.is_some() ==> exists|i: int|
                0 <= i < self@.len() && self@[i] == r.unwrap() && r.unwrap().block_hash@ == hash@
                    && forall|j: int| 0 <= j < i ==> self@[j].block_hash@ != hash@,
    {
        let mut i: usize = 0;
        while i < self.headers.len()
            invariant
                0 <= i <= self@.len(),
                forall|j: int| 0 <= j < i ==> self@[j].block_hash@ != hash@,
            decreases self@.len() - i,
        {
            if hash_eq(&self.headers[i].block_hash, hash) {
                return Some(self.headers[i]);
            }
            i = i + 1;
        }
        None
    }
}

} // verus!
