//! Block headers, 32-byte hashes and Merkle inclusion checks.
use vstd::prelude::*;

verus! {

/// A 32-byte hash.
pub type Hash32 = [u8; 32];

/// One block header as kept by the header store.
#[derive(Clone, Copy, Debug)]
pub struct StoredHeader {
    pub block_number: u64,
    pub block_hash: Hash32,
    pub parent_hash: Hash32,
    pub state_root: Hash32,
    pub transactions_root: Hash32,
    pub receipts_root: Hash32,
    pub timestamp: u64,
}

/// The digest that keccak-256 gives for `data`.
pub uninterp spec fn keccak_of(data: Seq<u8>) -> Seq<u8>;

/// Relies on `ethers::utils::keccak256`: the 32-byte keccak-256 digest of the
/// bytes, a function of those bytes alone.
#[verifier::external_body]
fn keccak256(data: &Vec<u8>) -> (r: Hash32)
    ensures
        r@ == keccak_of(data@),
{
    ethers::utils::keccak256(data)
}

/// Two hashes are equal as byte sequences.
pub fn hash_eq(a: &Hash32, b: &Hash32) -> (r: bool)
    ensures
        r == (a@ == b@),
{
    let mut i: usize = 0;
    while i < 32
        invariant
            0 <= i <= 32,
            forall|j: int| 0 <= j < i ==> a@[j] == b@[j],
        decreases 32 - i,
    {
        if a[i] != b[i] {
            assert(a@[i as int] != b@[i as int]);
            return false;
        }
        i = i + 1;
    }
    assert(a@ =~= b@);
    true
}

/// The bytes of `current` followed by the bytes of `sibling`: what one step of
/// Merkle verification hashes.
pub fn concat_pair(current: &Hash32, sibling: &Hash32) -> (r: Vec<u8>)
    ensures
        r@ == current@ + sibling@,
{
    let mut out: Vec<u8> = Vec::new();
    let mut i: usize = 0;
    while i < 32
        invariant
            0 <= i <= 32,
            out@ == current@.subrange(0, i as int),
        decreases 32 - i,
    {
        out.push(current[i]);
        i = i + 1;
        assert(out@ =~= current@.subrange(0, i as int));
    }
    let mut k: usize = 0;
    while k < 32
        invariant
            0 <= k <= 32,
            out@ == current@ + sibling@.subrange(0, k as int),
        decreases 32 - k,
    {
        out.push(sibling[k]);
        k = k + 1;
        assert(out@ =~= current@ + sibling@.subrange(0, k as int));
    }
    assert(current@.subrange(0, 32) =~= current@);
    assert(sibling@.subrange(0, 32) =~= sibling@);
    out
}

/// The views of a sequence of hashes.
pub open spec fn hash_views(s: Seq<Hash32>) -> Seq<Seq<u8>> {
    s.map_values(|h: Hash32| h@)
}

/// The value that Merkle verification computes from `leaf` and the siblings:
/// start at the leaf and, for each sibling in order, hash the current value
/// followed by the sibling.
pub open spec fn merkle_fold(leaf: Seq<u8>, siblings: Seq<Seq<u8>>) -> Seq<u8>
    decreases siblings.len(),
{
    if siblings.len() == 0 {
        leaf
    } else {
        keccak_of(merkle_fold(leaf, siblings.drop_last()) + siblings.last())
    }
}

/// Verifies that `leaf` is included under `root` along `proof`, combining the
/// current value with each sibling in order, position-blind.
pub fn verify_merkle_proof(leaf: &Hash32, proof: &[Hash32], root: &Hash32) -> (r: bool)
    ensures
        r == (merkle_fold(leaf@, hash_views(proof@)) == root@),
{
    let mut current: Hash32 = *leaf;
    let mut i: usize = 0;
    while i < proof.len()
        invariant
            0 <= i <= proof@.len(),
            current@ == merkle_fold(leaf@, hash_views(proof@.subrange(0, i as int))),
        decreases proof@.len() - i,
    {
        let bytes = concat_pair(&current, &proof[i]);
        current = keccak256(&bytes);
        proof {
            let pre = proof@.subrange(0, i as int);
            let next = proof@.subrange(0, i + 1);
            assert(next.drop_last() =~= pre);
            assert(hash_views(next).drop_last() =~= hash_views(pre));
            assert(hash_views(next).last() == proof@[i as int]@);
        }
        i = i + 1;
    }
    assert(proof@.subrange(0, proof@.len() as int) =~= proof@);
    hash_eq(&current, root)
}

/// Merkle verification with two siblings accepts exactly the root obtained by
/// hashing the leaf with the first sibling and that digest with the second.
pub proof fn lemma_two_level_inclusion(leaf: Hash32, s1: Hash32, s2: Hash32)
    ensures
        merkle_fold(leaf@, hash_views(seq![s1, s2]))
            == keccak_of(keccak_of(leaf@ + s1@) + s2@),
{
    let sibs = hash_views(seq![s1, s2]);
    assert(sibs.drop_last() =~= seq![s1@]);
    assert(sibs.drop_last().drop_last() =~= Seq::<Seq<u8>>::empty());
    assert(sibs.drop_last().last() == s1@);
    assert(sibs.last() == s2@);
    assert(merkle_fold(leaf@, sibs.drop_last().drop_last()) == leaf@);
    assert(merkle_fold(leaf@, sibs.drop_last()) == keccak_of(leaf@ + s1@));
}

/// A root that differs from the value computed along the proof is refused:
/// altering any bit of the root of an accepted proof makes it fail.
pub proof fn lemma_altered_root_refused(leaf: Hash32, proof: Seq<Hash32>, root: Hash32, other: Hash32)
    requires
        merkle_fold(leaf@, hash_views(proof)) == root@,
        other@ != root@,
    ensures
        merkle_fold(leaf@, hash_views(proof)) != other@,
{
}

} // verus!
