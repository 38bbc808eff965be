//! Proof generation: maps a typed proof request to its tag, proof bytes and
//! ordered public inputs.
use vstd::prelude::*;

use crate::header::Hash32;

verus! {

/// Length in bytes of a pairing-based proof.
pub const PROOF_LEN: usize = 192;

/// A request for one proof.
#[derive(Clone, Debug)]
pub enum ProofRequest {
    Withdrawal {
        merkle_root: [u8; 32],
        nullifier: [u8; 32],
        recipient: [u8; 20],
        amount: u64,
        secret: [u8; 32],
        randomness: [u8; 32],
        merkle_path: Vec<[u8; 32]>,
        merkle_indices: Vec<u8>,
    },
    Transfer {
        merkle_root: [u8; 32],
        nullifier: [u8; 32],
        new_commitment_a: [u8; 32],
        new_commitment_b: [u8; 32],
        secret: [u8; 32],
        randomness: [u8; 32],
        merkle_path: Vec<[u8; 32]>,
        merkle_indices: Vec<u8>,
    },
    Consistency {
        pedersen_commitment: [u8; 32],
        paillier_ciphertext: Vec<u8>,
        value: u64,
        pedersen_randomness: [u8; 32],
        paillier_randomness: Vec<u8>,
    },
    Range {
        commitment: [u8; 32],
        min_value: u64,
        value: u64,
        randomness: [u8; 32],
    },
}

/// A generated proof with its public inputs.
#[derive(Clone, Debug)]
pub struct GeneratedProof {
    pub proof_type: String,
    pub proof_data: Vec<u8>,
    pub public_inputs: Vec<[u8; 32]>,
    pub generation_time_ms: u64,
}

/// Byte `i` of the big-endian encoding of `v`.
pub open spec fn be_byte(v: u64, i: int) -> u8 {
    ((v >> ((8 * (7 - i)) as u64)) & 0xffu64) as u8
}

/// `v` big-endian, right-aligned in 32 bytes.
pub open spec fn u64_word(v: u64) -> Seq<u8> {
    Seq::new(24, |i: int| 0u8) + Seq::new(8, |i: int| be_byte(v, i))
}

/// A 20-byte address right-aligned in 32 bytes.
pub open spec fn address_word(a: Seq<u8>) -> Seq<u8> {
    Seq::new(12, |i: int| 0u8) + a
}

/// The tag naming the kind of a request.
pub open spec fn proof_tag(r: ProofRequest) -> Seq<char> {
    match r {
        ProofRequest::Withdrawal { .. } => "withdrawal"@,
        ProofRequest::Transfer { .. } => "transfer"@,
        ProofRequest::Consistency { .. } => "consistency"@,
        ProofRequest::Range { .. } => "range"@,
    }
}

/// The public inputs of a request, in order.
pub open spec fn public_inputs_of(r: ProofRequest) -> Seq<Seq<u8>> {
    match r {
        ProofRequest::Withdrawal { merkle_root, nullifier, recipient, amount, .. } =>
            seq![merkle_root@, nullifier@, address_word(recipient@), u64_word(amount)],
        ProofRequest::Transfer { merkle_root, nullifier, new_commitment_a, new_commitment_b, .. } =>
            seq![merkle_root@, nullifier@, new_commitment_a@, new_commitment_b@],
        ProofRequest::Consistency { pedersen_commitment, .. } => seq![pedersen_commitment@],
        ProofRequest::Range { commitment, min_value, .. } => seq![commitment@, u64_word(min_value)],
    }
}

/// The proof bytes: zero-filled, of the proof system's length.
pub open spec fn placeholder_proof() -> Seq<u8> {
    Seq::new(PROOF_LEN as nat, |i: int| 0u8)
}

/// Proof bytes for the given private inputs: a zero-filled buffer of the
/// proof system's length.
pub fn generate_dummy_proof(secret: &[u8; 32], randomness: &[u8; 32], merkle_path: &[[u8; 32]]) -> (r: Vec<u8>)
    ensures
        r@ == placeholder_proof(),
{
    let mut out: Vec<u8> = Vec::new();
    let mut i: usize = 0;
    while i < PROOF_LEN
        invariant
            0 <= i <= PROOF_LEN,
            out@ == Seq::new(i as nat, |j: int| 0u8),
        decreases PROOF_LEN - i,
    {
        out.push(0u8);
        i = i + 1;
        assert(out@ =~= Seq::new(i as nat, |j: int| 0u8));
    }
    out
}

/// `v` big-endian, right-aligned in 32 bytes.
pub fn pad_u64(v: u64) -> (r: Hash32)
    ensures
        r@ == u64_word(v),
{
    let mut out = [0u8; 32];
    let mut i: usize = 0;
    while i < 8
        invariant
            0 <= i <= 8,
            forall|j: int| 0 <= j < 24 ==> out@[j] == 0u8,
            forall|j: int| 0 <= j < i ==> out@[24 + j] == be_byte(v, j),
            forall|j: int| 24 + i <= j < 32 ==> out@[j] == 0u8,
        decreases 8 - i,
    {
        let shift: u64 = 8 * (7 - i as u64);
        out[24 + i] = ((v >> shift) & 0xffu64) as u8;
        i = i + 1;
    }
    assert(out@ =~= u64_word(v));
    out
}

/// A 20-byte address right-aligned in 32 bytes.
pub fn pad_address(recipient: &[u8; 20]) -> (r: Hash32)
    ensures
        r@ == address_word(recipient@),
{
    let mut out = [0u8; 32];
    let mut i: usize = 0;
    while i < 20
        invariant
            0 <= i <= 20,
            forall|j: int| 0 <= j < 12 ==> out@[j] == 0u8,
            forall|j: int| 0 <= j < i ==> out@[12 + j] == recipient@[j],
        decreases 20 - i,
    {
        out[12 + i] = recipient[i];
        i = i + 1;
    }
    assert(out@ =~= address_word(recipient@));
    out
}

/// Generates the proof for `request`; `generation_time_ms` is the elapsed
/// time that the caller measured around the call.
pub fn generate_proof(request: &ProofRequest, generation_time_ms: u64) -> (r: GeneratedProof)
    ensures
        r.proof_type@ == proof_tag(*request),
        r.proof_data@ == placeholder_proof(),
        r.public_inputs@.map_values(|w: [u8; 32]| w@) == public_inputs_of(*request),
        r.public_inputs@.len() == public_inputs_of(*request).len(),
        forall|i: int| 0 <= i < r.public_inputs@.len() ==> #[trigger] r.public_inputs@[i]@ == public_inputs_of(*request)[i],
        r.generation_time_ms == generation_time_ms,
{
    let zero = [0u8; 32];
    let empty: Vec<[u8; 32]> = Vec::new();
    let (proof_type, proof_data, public_inputs) = match request {
        ProofRequest::Withdrawal { merkle_root, nullifier, recipient, amount, secret, randomness, merkle_path, .. } => {
            let proof = generate_dummy_proof(secret, randomness, merkle_path.as_slice());
            let mut inputs: Vec<[u8; 32]> = Vec::new();
            inputs.push(*merkle_root);
            inputs.push(*nullifier);
            inputs.push(pad_address(recipient));
            inputs.push(pad_u64(*amount));
            (String::from_str("withdrawal"), proof, inputs)
        },
        ProofRequest::Transfer { merkle_root, nullifier, new_commitment_a, new_commitment_b, secret, randomness, merkle_path, .. } => {
            let proof = generate_dummy_proof(secret, randomness, merkle_path.as_slice());
            let mut inputs: Vec<[u8; 32]> = Vec::new();
            inputs.push(*merkle_root);
            inputs.push(*nullifier);
            inputs.push(*new_commitment_a);
            inputs.push(*new_commitment_b);
            (String::from_str("transfer"), proof, inputs)
        },
        ProofRequest::Consistency { pedersen_commitment, pedersen_randomness, .. } => {
            let proof = generate_dummy_proof(pedersen_randomness, &zero, empty.as_slice());
            let mut inputs: Vec<[u8; 32]> = Vec::new();
            inputs.push(*pedersen_commitment);
            (String::from_str("consistency"), proof, inputs)
        },
        ProofRequest::Range { commitment, min_value, randomness, .. } => {
            let proof = generate_dummy_proof(randomness, &zero, empty.as_slice());
            let mut inputs: Vec<[u8; 32]> = Vec::new();
            inputs.push(*commitment);
            inputs.push(pad_u64(*min_value));
            (String::from_str("range"), proof, inputs)
        },
    };
    assert(public_inputs@.map_values(|w: [u8; 32]| w@) =~= public_inputs_of(*request));
    assert(public_inputs@.map_values(|w: [u8; 32]| w@).len() == public_inputs@.len());
    assert forall|i: int| 0 <= i < public_inputs@.len() implies #[trigger] public_inputs@[i]@ == public_inputs_of(*request)[i] by {
        assert(public_inputs@.map_values(|w: [u8; 32]| w@)[i] == public_inputs@[i]@);
    }
    GeneratedProof { proof_type, proof_data, public_inputs, generation_time_ms }
}

} // verus!
