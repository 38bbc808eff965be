//! Events of the relayer gossip network, its topic names, and the relay
//! request built from a gossip message.
use vstd::prelude::*;

verus! {

/// Topic that carries relay requests.
pub const TOPIC_RELAY_REQUESTS: &'static str = "laundry/relay/1.0.0";

/// Topic that carries block header digests.
pub const TOPIC_BLOCK_HEADERS: &'static str = "laundry/headers/1.0.0";

/// Topic that carries reputation records.
pub const TOPIC_REPUTATION: &'static str = "laundry/reputation/1.0.0";

/// Length of the message prefix that names a relay request.
pub const REQUEST_ID_BYTES: usize = 32;

/// What the gossip network reports.
#[derive(Clone, Debug)]
pub enum P2PEvent {
    /// A relay request received from the network.
    RelayRequest { request_id: String, data: Vec<u8> },
    PeerConnected { peer_id: String },
    PeerDisconnected { peer_id: String },
}

/// The lowercase hexadecimal digit of `n`, for `n < 16`.
pub open spec fn hex_digit(n: int) -> char {
    seq!['0', '1', '2', '3', '4', '5', '6', '7', '8', '9', 'a', 'b', 'c', 'd', 'e', 'f'][n]
}

/// Lowercase hexadecimal text of `b`: two digits per byte, high nibble first.
pub open spec fn hex_of(b: Seq<u8>) -> Seq<char>
    decreases b.len(),
{
    if b.len() == 0 {
        Seq::empty()
    } else {
        hex_of(b.drop_last()) + seq![hex_digit(b.last() as int / 16), hex_digit(b.last() as int % 16)]
    }
}

/// `pat` occurs in `s`.
pub open spec fn has_substring(s: Seq<char>, pat: Seq<char>) -> bool {
    exists|i: int| 0 <= i <= s.len() - pat.len() && #[trigger] s.subrange(i, i + pat.len()) == pat
}

/// Relies on `hex::encode`: two lowercase digits per byte, high nibble first.
#[verifier::external_body]
fn hex_encode(data: &Vec<u8>) -> (r: String)
    ensures
        r@ == hex_of(data@),
{
    hex::encode(data)
}

/// Relies on `str::contains` with a `&str` pattern: whether `pat` occurs in `s`.
#[verifier::external_body]
fn str_contains(s: &str, pat: &str) -> (r: bool)
    ensures
        r == has_substring(s@, pat@),
{
    s.contains(pat)
}

/// The identifier of a relay request carried by `data`: the hex text of its
/// first 32 bytes, or of all of it when shorter.
pub open spec fn request_id_of(data: Seq<u8>) -> Seq<char> {
    hex_of(data.take(if data.len() < REQUEST_ID_BYTES { data.len() as int } else { REQUEST_ID_BYTES as int }))
}

/// The event for a gossip message with payload `data` on `topic`: a relay
/// request when the topic names relaying, nothing otherwise.
pub fn relay_request_event(topic: &str, data: Vec<u8>) -> (r: Option<P2PEvent>)
    ensures
        r.is_some() == has_substring(topic@, "relay"@),
        r.is_some() ==> (r.unwrap() matches P2PEvent::RelayRequest { request_id, data: payload }
            && request_id@ == request_id_of(data@) && payload@ == data@),
{
    if !str_contains(topic, "relay") {
        return None;
    }
    let n: usize = if data.len() < REQUEST_ID_BYTES { data.len() } else { REQUEST_ID_BYTES };
    let mut prefix: Vec<u8> = Vec::new();
    let mut i: usize = 0;
    while i < n
        invariant
            n <= data@.len(),
            0 <= i <= n,
            prefix@ == data@.take(i as int),
        decreases n - i,
    {
        prefix.push(data[i]);
        i = i + 1;
        assert(prefix@ =~= data@.take(i as int));
    }
    let request_id = hex_encode(&prefix);
    Some(P2PEvent::RelayRequest { request_id, data })
}

} // verus!
