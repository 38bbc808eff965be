use relayer::header::{verify_merkle_proof, Hash32, StoredHeader};
use relayer::header_store::{HeaderStore, MAX_HEADERS};
use relayer::light_client::LightClient;
use relayer::sync::{ChainSync, LightClientEvent};

fn h(n: u8) -> Hash32 {
    [n; 32]
}

fn header(number: u64, hash: u8, parent: u8) -> StoredHeader {
    StoredHeader {
        block_number: number,
        block_hash: h(hash),
        parent_hash: h(parent),
        state_root: [0u8; 32],
        transactions_root: [0u8; 32],
        receipts_root: [0u8; 32],
        timestamp: number * 12,
    }
}

fn keccak_pair(a: &Hash32, b: &Hash32) -> Hash32 {
    let mut bytes = a.to_vec();
    bytes.extend_from_slice(b);
    ethers::utils::keccak256(bytes)
}

/// Chain 1 bootstrapped at `height` with every block present; block `n` has
/// hash byte `n as u8` and parent byte `n - 1`.
fn full_chain(height: u64) -> ChainSync {
    let start = ChainSync::first_backfill_block(height);
    let fetched: Vec<Option<StoredHeader>> = (start..=height)
        .map(|n| Some(header(n, n as u8, (n as u8).wrapping_sub(1))))
        .collect();
    ChainSync::bootstrap(1, height, &fetched)
}

#[test]
fn test_header_storage() {
    let header = StoredHeader {
        block_number: 1,
        block_hash: [0u8; 32],
        parent_hash: [0u8; 32],
        state_root: [0u8; 32],
        transactions_root: [0u8; 32],
        receipts_root: [0u8; 32],
        timestamp: 0,
    };

    assert_eq!(header.block_number, 1);
}

#[test]
fn bootstrap_backfills_two_finality_depths() {
    let chain = full_chain(100);
    assert_eq!(ChainSync::first_backfill_block(100), 70);
    assert_eq!(chain.finalized(), 85);
    assert_eq!(chain.latest().unwrap().block_number, 100);
    let mut count = 0;
    for n in 70u64..=100 {
        assert!(chain.header_by_hash(&h(n as u8)).is_some());
        count += 1;
    }
    assert_eq!(count, 31);
    assert!(chain.header_by_hash(&h(69)).is_none());
}

#[test]
fn bootstrap_tolerates_gaps_and_wrong_numbers() {
    let start = ChainSync::first_backfill_block(100);
    let fetched: Vec<Option<StoredHeader>> = (start..=100)
        .map(|n| {
            if n % 10 == 5 {
                None
            } else if n == 71 {
                Some(header(99, 71, 70))
            } else {
                Some(header(n, n as u8, n as u8 - 1))
            }
        })
        .collect();
    let chain = ChainSync::bootstrap(1, 100, &fetched);
    assert_eq!(chain.finalized(), 85);
    assert!(chain.header_by_hash(&h(75)).is_none());
    assert!(chain.header_by_hash(&h(71)).is_none());
    assert!(chain.header_by_hash(&h(72)).is_some());
}

#[test]
fn bootstrap_near_genesis_saturates() {
    let chain = full_chain(10);
    assert_eq!(ChainSync::first_backfill_block(10), 0);
    assert_eq!(chain.finalized(), 0);
    assert!(chain.header_by_hash(&h(0)).is_some());
}

#[test]
fn poll_at_or_below_tail_is_a_no_op() {
    let mut chain = full_chain(100);
    assert_eq!(chain.block_to_fetch(100), None);
    assert_eq!(chain.block_to_fetch(42), None);
    assert_eq!(chain.block_to_fetch(101), Some(101));
    let events = chain.on_block(100, Some(header(100, 200, 99)));
    assert!(events.is_empty());
    assert_eq!(chain.latest().unwrap().block_hash, h(100));
    assert_eq!(chain.finalized(), 85);
}

#[test]
fn new_block_on_tail_is_appended() {
    let mut chain = full_chain(100);
    let events = chain.on_block(101, Some(header(101, 101, 100)));
    assert_eq!(events.len(), 1);
    match events[0] {
        LightClientEvent::NewBlock { chain_id, block_number, block_hash } => {
            assert_eq!(chain_id, 1);
            assert_eq!(block_number, 101);
            assert_eq!(block_hash, h(101));
        }
        _ => panic!("expected a new block"),
    }
    assert_eq!(chain.finalized(), 86);
    assert_eq!(chain.latest().unwrap().block_number, 101);
}

#[test]
fn missing_or_misnumbered_block_changes_nothing() {
    let mut chain = full_chain(100);
    assert!(chain.on_block(101, None).is_empty());
    assert!(chain.on_block(101, Some(header(102, 102, 100))).is_empty());
    assert_eq!(chain.latest().unwrap().block_number, 100);
    assert_eq!(chain.finalized(), 85);
}

#[test]
fn reorg_pops_to_common_ancestor() {
    let mut chain = ChainSync::bootstrap(
        5,
        2,
        &vec![
            Some(header(0, 10, 9)),
            Some(header(1, 11, 10)),
            Some(header(2, 12, 11)),
        ],
    );
    let events = chain.on_block(3, Some(header(3, 50, 10)));
    assert_eq!(events.len(), 2);
    match events[0] {
        LightClientEvent::Reorg { chain_id, depth } => {
            assert_eq!(chain_id, 5);
            assert_eq!(depth, 2);
        }
        _ => panic!("expected a reorg first"),
    }
    match events[1] {
        LightClientEvent::NewBlock { block_number, .. } => assert_eq!(block_number, 3),
        _ => panic!("expected a new block second"),
    }
    assert!(chain.header_by_hash(&h(10)).is_some());
    assert!(chain.header_by_hash(&h(11)).is_none());
    assert!(chain.header_by_hash(&h(12)).is_none());
    assert_eq!(chain.latest().unwrap().block_hash, h(50));
}

#[test]
fn unresolved_reorg_empties_store_and_reports_full_depth() {
    let mut chain = full_chain(100);
    let events = chain.on_block(101, Some(header(101, 250, 251)));
    match events[0] {
        LightClientEvent::Reorg { depth, .. } => assert_eq!(depth, 31),
        _ => panic!("expected a reorg"),
    }
    assert!(chain.header_by_hash(&h(100)).is_none());
    assert_eq!(chain.latest().unwrap().block_hash, h(250));
}

#[test]
fn store_evicts_oldest_past_bound() {
    let mut store = HeaderStore::new();
    for n in 0..(MAX_HEADERS as u64 + 5) {
        store.append(header(n, (n % 251) as u8, 0));
        assert!(store.len() <= MAX_HEADERS);
    }
    assert_eq!(store.len(), MAX_HEADERS);
    assert_eq!(store.tail().unwrap().block_number, MAX_HEADERS as u64 + 4);
    assert_eq!(store.lookup_by_hash(&h(4)).unwrap().block_number, 255);
    assert_eq!(store.lookup_by_hash(&h(5)).unwrap().block_number, 5);
}

#[test]
fn truncate_to_parent_counts_pops() {
    let mut store = HeaderStore::new();
    for n in 0..5u64 {
        store.append(header(n, n as u8, 0));
    }
    assert_eq!(store.truncate_to_parent(&h(4)), 0);
    assert_eq!(store.truncate_to_parent(&h(1)), 3);
    assert_eq!(store.len(), 2);
    assert_eq!(store.truncate_to_parent(&h(99)), 2);
    assert_eq!(store.len(), 0);
}

#[test]
fn merkle_two_level_proof_verifies() {
    let leaf = h(1);
    let s1 = h(2);
    let s2 = h(3);
    let root = keccak_pair(&keccak_pair(&leaf, &s1), &s2);
    assert!(verify_merkle_proof(&leaf, &[s1, s2], &root));
    assert!(!verify_merkle_proof(&leaf, &[s2, s1], &root));

    let mut bad_leaf = leaf;
    bad_leaf[0] ^= 1;
    assert!(!verify_merkle_proof(&bad_leaf, &[s1, s2], &root));
    let mut bad_s1 = s1;
    bad_s1[31] ^= 0x80;
    assert!(!verify_merkle_proof(&leaf, &[bad_s1, s2], &root));
    let mut bad_s2 = s2;
    bad_s2[7] ^= 4;
    assert!(!verify_merkle_proof(&leaf, &[s1, bad_s2], &root));
    let mut bad_root = root;
    bad_root[12] ^= 2;
    assert!(!verify_merkle_proof(&leaf, &[s1, s2], &bad_root));
}

#[test]
fn merkle_empty_proof_compares_leaf_with_root() {
    assert!(verify_merkle_proof(&h(9), &[], &h(9)));
    assert!(!verify_merkle_proof(&h(9), &[], &h(8)));
}

#[test]
fn facade_routes_blocks_and_queues_events() {
    let mut tx_chain = ChainSync::bootstrap(
        42161,
        0,
        &vec![Some(StoredHeader { transactions_root: [0u8; 32], ..header(0, 30, 29) })],
    );
    let leaf = h(1);
    let s1 = h(2);
    let root = keccak_pair(&leaf, &s1);
    let events = tx_chain.on_block(1, Some(StoredHeader { transactions_root: root, ..header(1, 31, 30) }));
    assert_eq!(events.len(), 1);

    let mut client = LightClient::new(vec![full_chain(100), tx_chain]);
    assert_eq!(client.find_chain(42161), Some(1));
    assert_eq!(client.find_chain(7), None);
    assert_eq!(client.get_finalized(1), Some(85));
    assert_eq!(client.get_finalized(7), None);
    assert!(client.get_header(1, &h(99)).is_some());
    assert!(client.get_header(7, &h(99)).is_none());

    assert!(client.verify_inclusion(42161, &h(31), &leaf, &[s1]));
    assert!(!client.verify_inclusion(42161, &h(31), &leaf, &[h(3)]));
    assert!(!client.verify_inclusion(42161, &h(77), &leaf, &[s1]));

    assert_eq!(client.next_event().is_none(), true);
    assert_eq!(client.block_to_fetch(0, 101), Some(101));
    client.on_block(0, 101, Some(header(101, 101, 100)));
    client.on_block(1, 5, Some(header(5, 35, 99)));
    match client.next_event() {
        Some(LightClientEvent::NewBlock { chain_id: 1, block_number: 101, .. }) => {}
        other => panic!("unexpected {:?}", other),
    }
    match client.next_event() {
        Some(LightClientEvent::Reorg { chain_id: 42161, depth: 2 }) => {}
        other => panic!("unexpected {:?}", other),
    }
    match client.next_event() {
        Some(LightClientEvent::NewBlock { chain_id: 42161, block_number: 5, .. }) => {}
        other => panic!("unexpected {:?}", other),
    }
    assert!(client.next_event().is_none());
    client.on_block(0, 102, Some(header(102, 102, 101)));
    client.shutdown();
    assert!(client.next_event().is_none());
    assert_eq!(client.get_finalized(1), Some(87));
}
