use relayer::admission::{JobOutcome, ProverConfig, ProverError, ProverService};
use relayer::prover::{generate_dummy_proof, generate_proof, pad_address, pad_u64, ProofRequest};

#[test]
fn test_prover_disabled() {
    let config = ProverConfig {
        enabled: false,
        max_concurrent: 1,
        timeout_secs: 60,
    };

    let mut prover = ProverService::new(&config);

    let request = ProofRequest::Range {
        commitment: [0u8; 32],
        min_value: 100,
        value: 200,
        randomness: [0u8; 32],
    };

    let result = prover.submit(0).map(|_| generate_proof(&request, 0));
    assert!(result.is_err());
}

#[test]
fn test_prover_enabled() {
    let config = ProverConfig {
        enabled: true,
        max_concurrent: 2,
        timeout_secs: 60,
    };

    let prover = ProverService::new(&config);
    assert!(prover.is_available());
    assert_eq!(prover.queue_depth(), 0);
}

#[test]
fn disabled_submit_never_queues() {
    let mut prover = ProverService::new(&ProverConfig { enabled: false, max_concurrent: 3, timeout_secs: 5 });
    for t in 0..4 {
        assert_eq!(prover.submit(t), Err(ProverError::ServiceDisabled));
    }
    assert_eq!(prover.queue_depth(), 0);
    assert_eq!(prover.waiting_count(), 0);
    assert_eq!(prover.dispatch(), None);
    assert!(!prover.is_available());
}

#[test]
fn one_request_waits_beyond_permits() {
    let mut prover = ProverService::new(&ProverConfig { enabled: true, max_concurrent: 3, timeout_secs: 5 });
    for t in 10..14 {
        assert_eq!(prover.submit(t), Ok(()));
    }
    assert_eq!(prover.dispatch(), Some(10));
    assert_eq!(prover.queue_depth(), 1);
    assert_eq!(prover.dispatch(), Some(11));
    assert_eq!(prover.dispatch(), Some(12));
    assert_eq!(prover.queue_depth(), 3);
    assert_eq!(prover.dispatch(), None);
    assert_eq!(prover.waiting_count(), 1);
    assert!(!prover.is_available());
    prover.release();
    assert_eq!(prover.queue_depth(), 2);
    assert!(prover.is_available());
    assert_eq!(prover.dispatch(), Some(13));
    assert_eq!(prover.waiting_count(), 0);
    assert_eq!(prover.queue_depth(), 3);
}

#[test]
fn timeout_yields_error_and_frees_permit() {
    let mut prover = ProverService::new(&ProverConfig { enabled: true, max_concurrent: 1, timeout_secs: 1 });
    prover.submit(1).unwrap();
    assert_eq!(prover.dispatch(), Some(1));
    assert!(!prover.is_available());
    assert_eq!(ProverService::finish(JobOutcome::TimedOut).unwrap_err(), ProverError::ProofTimeout);
    prover.release();
    assert!(prover.is_available());
    assert_eq!(ProverService::finish(JobOutcome::Failed).unwrap_err(), ProverError::GenerationFailed);
}

#[test]
fn finish_passes_completed_proof_through() {
    let request = ProofRequest::Consistency {
        pedersen_commitment: [5u8; 32],
        paillier_ciphertext: vec![1, 2, 3],
        value: 9,
        pedersen_randomness: [6u8; 32],
        paillier_randomness: vec![4],
    };
    let proof = generate_proof(&request, 17);
    let out = ProverService::finish(JobOutcome::Completed(proof)).unwrap();
    assert_eq!(out.proof_type, "consistency");
    assert_eq!(out.public_inputs, vec![[5u8; 32]]);
    assert_eq!(out.generation_time_ms, 17);
}

#[test]
fn dummy_proof_is_zero_filled() {
    let p = generate_dummy_proof(&[1u8; 32], &[2u8; 32], &[[3u8; 32]]);
    assert_eq!(p.len(), 192);
    assert!(p.iter().all(|b| *b == 0));
}

#[test]
fn padding_is_right_aligned_big_endian() {
    let w = pad_u64(0x0102_0304_0506_0708);
    assert_eq!(&w[..24], &[0u8; 24]);
    assert_eq!(&w[24..], &[1, 2, 3, 4, 5, 6, 7, 8]);
    let mut addr = [0u8; 20];
    for (i, b) in addr.iter_mut().enumerate() {
        *b = i as u8 + 1;
    }
    let a = pad_address(&addr);
    assert_eq!(&a[..12], &[0u8; 12]);
    assert_eq!(&a[12..], &addr);
}

#[test]
fn withdrawal_public_inputs_in_order() {
    let request = ProofRequest::Withdrawal {
        merkle_root: [1u8; 32],
        nullifier: [2u8; 32],
        recipient: [0xaa; 20],
        amount: 1_000_000,
        secret: [3u8; 32],
        randomness: [4u8; 32],
        merkle_path: vec![[5u8; 32]],
        merkle_indices: vec![0],
    };
    let proof = generate_proof(&request, 3);
    assert_eq!(proof.proof_type, "withdrawal");
    assert_eq!(proof.proof_data, vec![0u8; 192]);
    assert_eq!(proof.public_inputs.len(), 4);
    assert_eq!(proof.public_inputs[0], [1u8; 32]);
    assert_eq!(proof.public_inputs[1], [2u8; 32]);
    let mut recipient = [0u8; 32];
    recipient[12..].copy_from_slice(&[0xaa; 20]);
    assert_eq!(proof.public_inputs[2], recipient);
    let mut amount = [0u8; 32];
    amount[24..].copy_from_slice(&1_000_000u64.to_be_bytes());
    assert_eq!(proof.public_inputs[3], amount);
}

#[test]
fn transfer_and_range_public_inputs() {
    let transfer = ProofRequest::Transfer {
        merkle_root: [1u8; 32],
        nullifier: [2u8; 32],
        new_commitment_a: [3u8; 32],
        new_commitment_b: [4u8; 32],
        secret: [5u8; 32],
        randomness: [6u8; 32],
        merkle_path: vec![],
        merkle_indices: vec![],
    };
    let p = generate_proof(&transfer, 0);
    assert_eq!(p.proof_type, "transfer");
    assert_eq!(p.public_inputs, vec![[1u8; 32], [2u8; 32], [3u8; 32], [4u8; 32]]);

    let range = ProofRequest::Range {
        commitment: [9u8; 32],
        min_value: 100,
        value: 200,
        randomness: [0u8; 32],
    };
    let p = generate_proof(&range, 0);
    assert_eq!(p.proof_type, "range");
    let mut min = [0u8; 32];
    min[31] = 100;
    assert_eq!(p.public_inputs, vec![[9u8; 32], min]);
}
