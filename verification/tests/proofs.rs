use zkwatch_core::zk_proofs::{
    assemble_transaction_proof, generate_stark_trace, generate_verification_key, StarkWitness,
    WhaleTransactionInputs, ZKSNARKGenerator, ZKSTARKGenerator, DIGEST_LEN,
};
use zkwatch_core::ZKProof;

fn inputs(tx_hash: &str, block_number: u64, timestamp: i64) -> WhaleTransactionInputs {
    WhaleTransactionInputs {
        tx_hash: tx_hash.to_string(),
        block_number,
        timestamp,
        amount_commitment: "commitment_hash_1".to_string(),
        address_commitment: "commitment_hash_2".to_string(),
        gas_commitment: "commitment_hash_3".to_string(),
    }
}

#[test]
fn a_transaction_proof_is_the_digest_of_the_public_part() {
    let generator = ZKSNARKGenerator::new();
    let data = inputs("0x1234567890abcdef1234567890abcdef12345678", 18_000_000, 1_700_000_000);
    let proof = generator.generate_whale_transaction_proof(&data, 42).unwrap();
    assert_eq!(
        proof.proof_data,
        vec![
            204, 199, 174, 171, 50, 131, 166, 215, 182, 125, 25, 158, 154, 192, 46, 110, 141, 143,
            235, 126, 70, 124, 126, 249, 180, 199, 76, 54, 41, 233, 113, 58
        ]
    );
    assert_eq!(proof.proof_data.len(), DIGEST_LEN);
    assert_eq!(
        proof.public_inputs,
        vec!["0x1234567890abcdef1234567890abcdef12345678", "18000000", "1700000000"]
    );
    assert_eq!(proof.verification_key, "zk_snark_vk_v2.1.0_security_128");
    assert_eq!(proof.timestamp, 42);
    assert_eq!(generator.verify_proof(&proof).unwrap(), true);
}

#[test]
fn a_transaction_proof_takes_an_instant_before_the_epoch() {
    let generator = ZKSNARKGenerator::new();
    let data = inputs("0x1234567890abcdef1234567890abcdef12345678", 1, -1);
    let proof = generator.generate_whale_transaction_proof(&data, -7).unwrap();
    assert_eq!(
        proof.proof_data,
        vec![
            189, 189, 247, 253, 183, 76, 189, 150, 70, 81, 45, 238, 58, 243, 183, 158, 254, 166,
            195, 71, 207, 126, 198, 120, 3, 200, 13, 139, 98, 64, 200, 243
        ]
    );
    assert_eq!(proof.public_inputs[1], "1");
    assert_eq!(proof.public_inputs[2], "-1");
    assert_eq!(proof.timestamp, -7);
}

#[test]
fn a_proof_is_put_together_around_any_digest() {
    let data = inputs("0xabc", 0, i64::MIN);
    let proof = assemble_transaction_proof(vec![1, 2, 3], &data, &"key".to_string(), 9);
    assert_eq!(
        proof,
        ZKProof {
            proof_data: vec![1, 2, 3],
            public_inputs: vec![
                "0xabc".to_string(),
                "0".to_string(),
                "-9223372036854775808".to_string()
            ],
            verification_key: "key".to_string(),
            timestamp: 9,
        }
    );
}

#[test]
fn a_proof_passes_if_it_is_well_formed() {
    let generator = ZKSNARKGenerator::new();
    let mut proof = ZKProof {
        proof_data: vec![0],
        public_inputs: vec![String::new()],
        verification_key: String::new(),
        timestamp: 0,
    };
    assert_eq!(generator.verify_proof(&proof).unwrap(), true);
    proof.proof_data.clear();
    assert_eq!(generator.verify_proof(&proof).unwrap(), false);
    proof.proof_data.push(1);
    proof.public_inputs.clear();
    assert_eq!(generator.verify_proof(&proof).unwrap(), false);
}

#[test]
fn proofs_are_made_in_batches() {
    let generator = ZKSNARKGenerator::new();
    let batch = vec![inputs("0xa", 1, 2), inputs("0xb", 3, 4), inputs("0xa", 1, 2)];
    let proofs = generator.generate_batch_proofs(&batch, 5).unwrap();
    assert_eq!(proofs.len(), 3);
    for (proof, data) in proofs.iter().zip(batch.iter()) {
        assert_eq!(*proof, generator.generate_whale_transaction_proof(data, 5).unwrap());
    }
    assert_eq!(proofs[0], proofs[2]);
    assert_ne!(proofs[0].proof_data, proofs[1].proof_data);
    assert!(generator.generate_batch_proofs(&Vec::new(), 5).unwrap().is_empty());
}

#[test]
fn the_verification_key_is_fixed() {
    assert_eq!(generate_verification_key(), "zk_snark_vk_v2.1.0_security_128");
}

#[test]
fn a_trace_holds_each_step_and_its_two_successors() {
    let witness = StarkWitness {
        input_values: vec![1],
        output_values: vec![2],
        computation_steps: vec![0, 41, u64::MAX - 1, u64::MAX],
    };
    assert_eq!(
        generate_stark_trace(&witness),
        vec![
            vec![0, 1, 2],
            vec![41, 42, 43],
            vec![u64::MAX - 1, u64::MAX, 0],
            vec![u64::MAX, 0, 1]
        ]
    );
}

#[test]
fn a_stark_proof_is_the_digest_of_the_program_and_the_trace() {
    let generator = ZKSTARKGenerator::new(128);
    let witness = StarkWitness {
        input_values: Vec::new(),
        output_values: Vec::new(),
        computation_steps: vec![1, u64::MAX],
    };
    let proof = generator.generate_stark_proof(&witness, "prog", 77).unwrap();
    assert_eq!(
        proof.proof_data,
        vec![
            98, 179, 153, 93, 129, 137, 61, 226, 63, 65, 98, 0, 124, 99, 48, 107, 166, 135, 165,
            37, 232, 181, 149, 126, 110, 191, 239, 174, 190, 138, 244, 235
        ]
    );
    assert_eq!(proof.public_inputs, vec!["prog"]);
    assert_eq!(proof.verification_key, "stark_vk_128_18446744069414584321");
    assert_eq!(proof.timestamp, 77);
}

#[test]
fn a_stark_proof_of_nothing_is_the_digest_of_nothing() {
    let generator = ZKSTARKGenerator::new(0);
    let witness = StarkWitness {
        input_values: Vec::new(),
        output_values: Vec::new(),
        computation_steps: Vec::new(),
    };
    let proof = generator.generate_stark_proof(&witness, "", 0).unwrap();
    assert_eq!(
        proof.proof_data,
        vec![
            227, 176, 196, 66, 152, 252, 28, 20, 154, 251, 244, 200, 153, 111, 185, 36, 39, 174,
            65, 228, 100, 155, 147, 76, 164, 149, 153, 27, 120, 82, 184, 85
        ]
    );
    assert_eq!(proof.verification_key, "stark_vk_0_18446744069414584321");
}
