use relayer::p2p::{relay_request_event, P2PEvent, TOPIC_BLOCK_HEADERS, TOPIC_RELAY_REQUESTS, TOPIC_REPUTATION};

#[test]
fn test_topics() {
    assert!(TOPIC_RELAY_REQUESTS.contains("relay"));
    assert!(TOPIC_BLOCK_HEADERS.contains("headers"));
}

#[test]
fn relay_topic_yields_request_named_by_prefix() {
    let data: Vec<u8> = (0u8..40).collect();
    match relay_request_event(TOPIC_RELAY_REQUESTS, data.clone()) {
        Some(P2PEvent::RelayRequest { request_id, data: payload }) => {
            assert_eq!(request_id, "000102030405060708090a0b0c0d0e0f101112131415161718191a1b1c1d1e1f");
            assert_eq!(payload, data);
        }
        other => panic!("unexpected {:?}", other),
    }
}

#[test]
fn short_payload_is_named_whole() {
    match relay_request_event("x/relay", vec![0xde, 0xad, 0xbe, 0xef]) {
        Some(P2PEvent::RelayRequest { request_id, .. }) => assert_eq!(request_id, "deadbeef"),
        other => panic!("unexpected {:?}", other),
    }
    match relay_request_event(TOPIC_RELAY_REQUESTS, vec![]) {
        Some(P2PEvent::RelayRequest { request_id, .. }) => assert_eq!(request_id, ""),
        other => panic!("unexpected {:?}", other),
    }
}

#[test]
fn other_topics_yield_nothing() {
    assert!(relay_request_event(TOPIC_BLOCK_HEADERS, vec![1, 2, 3]).is_none());
    assert!(relay_request_event(TOPIC_REPUTATION, vec![1, 2, 3]).is_none());
}
