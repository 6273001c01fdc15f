//! Stand-ins for zero-knowledge proofs: digests that commit to the public
//! part of a transaction or of a computation.
//!
//! Nothing here proves anything in zero knowledge; a proof is the SHA-256
//! digest of its public inputs and passes the check if it is well formed.

use vstd::prelude::*;
use vstd::utf8::encode_utf8;

use crate::text::{decimal_text, push_decimal};
use crate::{texts, ZKProof, ZKWatchError};

verus! {

/// The most bytes a digest can be taken of: their number of bits has to
/// fit 64 bits.
pub const DIGEST_INPUT_LIMIT: u64 = 0x2000_0000_0000_0000;

/// The length of a SHA-256 digest in bytes.
pub const DIGEST_LEN: usize = 32;

/// The key the transaction proofs are checked with.
pub const SNARK_VERIFICATION_KEY: &'static str = "zk_snark_vk_v2.1.0_security_128";

/// The prime of the field the STARK generator works in.
pub const STARK_FIELD_PRIME: u64 = 18446744069414584321;

/// The SHA-256 digest of `data`, as `ring` computes it.
pub uninterp spec fn sha256(data: Seq<u8>) -> Seq<u8>;

/// `x` written in `width` bytes, most significant first; what does not fit
/// is dropped.
pub open spec fn big_endian(x: nat, width: nat) -> Seq<u8>
    decreases width,
{
    if width == 0 {
        Seq::empty()
    } else {
        big_endian(x / 256, (width - 1) as nat).push((x % 256) as u8)
    }
}

/// The successor of `x` among the 64-bit numbers, zero following the
/// greatest.
pub open spec fn successor(x: u64) -> u64 {
    if x == u64::MAX {
        0
    } else {
        (x + 1) as u64
    }
}

fn next_after(x: u64) -> (next: u64)
    ensures
        next == successor(x),
{
    if x == u64::MAX {
        0
    } else {
        x + 1
    }
}

fn push_big_endian(out: &mut Vec<u8>, x: u64, width: u8)
    ensures
        final(out)@ == old(out)@ + big_endian(x as nat, width as nat),
    decreases width,
{
    if width > 0 {
        push_big_endian(out, x / 256, width - 1);
        let ghost before = out@;
        out.push((x % 256) as u8);
        assert(out@ =~= old(out)@ + big_endian(x as nat, width as nat));
    } else {
        assert(out@ =~= old(out)@ + big_endian(x as nat, 0));
    }
}

fn push_text_bytes(out: &mut Vec<u8>, text: &str)
    ensures
        final(out)@ == old(out)@ + encode_utf8(text@),
{
    let bytes = text.as_bytes();
    let n = bytes.len();
    let mut i: usize = 0;
    while i < n
        invariant
            n == bytes@.len(),
            i <= n,
            bytes@ == encode_utf8(text@),
            out@ == old(out)@ + bytes@.take(i as int),
        decreases n - i,
    {
        out.push(bytes[i]);
        assert(out@ =~= old(out)@ + bytes@.take(i + 1));
        i = i + 1;
    }
    assert(bytes@.take(n as int) =~= bytes@);
}

/// The SHA-256 digest of `data`: `ring::digest::digest` with
/// `ring::digest::SHA256`.
///
/// Trusted: the result is what `sha256` names and has 32 bytes. `ring`
/// panics on an input whose length in bits does not fit 64 bits; such an
/// input is left out.
#[verifier::external_body]
fn sha256_of(data: &Vec<u8>) -> (digest: Vec<u8>)
    requires
        data.len() < DIGEST_INPUT_LIMIT,
    ensures
        digest@ == sha256(data@),
        digest.len() == DIGEST_LEN,
{
    ring::digest::digest(&ring::digest::SHA256, data.as_slice()).as_ref().to_vec()
}

/// What a proof about a transaction is made of. `timestamp` is in seconds
/// since the epoch.
#[derive(Clone, Debug, PartialEq, Eq)]
pub struct WhaleTransactionInputs {
    pub tx_hash: String,
    pub block_number: u64,
    pub timestamp: i64,
    pub amount_commitment: String,
    pub address_commitment: String,
    pub gas_commitment: String,
}

/// The values of a computation that a STARK proof is about.
#[derive(Clone, Debug, PartialEq, Eq)]
pub struct StarkWitness {
    pub input_values: Vec<u64>,
    pub output_values: Vec<u64>,
    pub computation_steps: Vec<u64>,
}

/// The bytes a transaction proof is the digest of: the hash, then the
/// block number and the instant in eight bytes each, most significant
/// first.
pub open spec fn transaction_preimage(inputs: WhaleTransactionInputs) -> Seq<u8> {
    encode_utf8(inputs.tx_hash@) + big_endian(inputs.block_number as nat, 8) + big_endian(
        (inputs.timestamp as u64) as nat,
        8,
    )
}

/// The public inputs of a transaction proof: the hash, the block number
/// and the instant, the numbers in decimal.
pub open spec fn transaction_public_inputs(inputs: WhaleTransactionInputs) -> Seq<Seq<char>> {
    seq![
        inputs.tx_hash@,
        decimal_text(inputs.block_number as int),
        decimal_text(inputs.timestamp as int),
    ]
}

/// `made` is the proof about `inputs` built around `digest` at `now`, to
/// be checked with `key`.
pub open spec fn is_proof_around(
    made: ZKProof,
    digest: Seq<u8>,
    inputs: WhaleTransactionInputs,
    key: Seq<char>,
    now: i64,
) -> bool {
    &&& made.proof_data@ == digest
    &&& texts(made.public_inputs@) == transaction_public_inputs(inputs)
    &&& made.verification_key@ == key
    &&& made.timestamp == now
}

/// Whether a proof is well formed: it has a digest and public inputs.
pub open spec fn well_formed(proof: ZKProof) -> bool {
    proof.proof_data@.len() > 0 && proof.public_inputs@.len() > 0
}

/// The row of the trace for the step `step`: the step and its two
/// successors.
pub open spec fn trace_row(step: u64) -> Seq<u64> {
    seq![step, successor(step), successor(successor(step))]
}

/// The bytes of the first `k` rows of the trace, eight to a value, most
/// significant first.
pub open spec fn trace_bytes(steps: Seq<u64>, k: nat) -> Seq<u8>
    decreases k,
{
    if k == 0 {
        Seq::empty()
    } else {
        let row = trace_row(steps[k - 1]);
        trace_bytes(steps, (k - 1) as nat) + big_endian(row[0] as nat, 8) + big_endian(
            row[1] as nat,
            8,
        ) + big_endian(row[2] as nat, 8)
    }
}

/// The bytes a STARK proof is the digest of: the program's hash, then the
/// trace.
pub open spec fn stark_preimage(program_hash: Seq<char>, steps: Seq<u64>) -> Seq<u8> {
    encode_utf8(program_hash) + trace_bytes(steps, steps.len())
}

/// The key a STARK proof is checked with.
pub open spec fn stark_key(security_level: u32, field_prime: u64) -> Seq<char> {
    "stark_vk_"@ + decimal_text(security_level as int) + "_"@ + decimal_text(field_prime as int)
}

/// Puts a transaction proof together around the digest `digest`.
pub fn assemble_transaction_proof(
    digest: Vec<u8>,
    inputs: &WhaleTransactionInputs,
    key: &String,
    now: i64,
) -> (made: ZKProof)
    ensures
        is_proof_around(made, digest@, *inputs, key@, now),
{
    let mut public_inputs: Vec<String> = Vec::new();
    public_inputs.push(inputs.tx_hash.clone());
    let mut block = String::new();
    push_decimal(&mut block, inputs.block_number as i128);
    assert(block@ =~= decimal_text(inputs.block_number as int));
    public_inputs.push(block);
    let mut at = String::new();
    push_decimal(&mut at, inputs.timestamp as i128);
    assert(at@ =~= decimal_text(inputs.timestamp as int));
    public_inputs.push(at);
    assert(texts(public_inputs@) =~= transaction_public_inputs(*inputs));
    ZKProof { proof_data: digest, public_inputs, verification_key: key.clone(), timestamp: now }
}

/// Makes and checks the proofs about transactions.
#[derive(Clone, Debug, PartialEq, Eq)]
pub struct ZKSNARKGenerator {
    proving_key: Option<Vec<u8>>,
    verification_key: String,
}

impl ZKSNARKGenerator {
    /// The key the generator's proofs are checked with.
    pub closed spec fn key(&self) -> Seq<char> {
        self.verification_key@
    }

    /// A generator with the usual verification key.
    pub fn new() -> (generator: ZKSNARKGenerator)
        ensures
            generator.key() == SNARK_VERIFICATION_KEY@,
    {
        ZKSNARKGenerator {
            proving_key: None,
            verification_key: generate_verification_key(),
        }
    }

    /// Makes the proof about a transaction: the digest of its public part.
    ///
    /// Fails with `Crypto` exactly when that part is too long to take a
    /// digest of.
    pub fn generate_whale_transaction_proof(
        &self,
        transaction_data: &WhaleTransactionInputs,
        now: i64,
    ) -> (made: Result<ZKProof, ZKWatchError>)
        ensures
            made is Ok <==> transaction_preimage(*transaction_data).len() < DIGEST_INPUT_LIMIT,
            made matches Ok(proof) ==> is_proof_around(
                proof,
                sha256(transaction_preimage(*transaction_data)),
                *transaction_data,
                self.key(),
                now,
            ) && well_formed(proof),
            made matches Err(e) ==> e is Crypto,
    {
        let mut data: Vec<u8> = Vec::new();
        push_text_bytes(&mut data, transaction_data.tx_hash.as_str());
        push_big_endian(&mut data, transaction_data.block_number, 8);
        push_big_endian(&mut data, #[verifier::truncate] (transaction_data.timestamp as u64), 8);
        assert(data@ =~= transaction_preimage(*transaction_data));
        if data.len() as u64 >= DIGEST_INPUT_LIMIT {
            return Err(ZKWatchError::Crypto);
        }
        let digest = sha256_of(&data);
        let proof = assemble_transaction_proof(
            digest,
            transaction_data,
            &self.verification_key,
            now,
        );
        assert(texts(proof.public_inputs@).len() == 3);
        Ok(proof)
    }

    /// Checks a proof: it passes if it is well formed.
    pub fn verify_proof(&self, proof: &ZKProof) -> (checked: Result<bool, ZKWatchError>)
        ensures
            checked matches Ok(passes) && passes == well_formed(*proof),
    {
        Ok(proof.proof_data.len() > 0 && proof.public_inputs.len() > 0)
    }

    /// Makes the proofs about several transactions, in their order; fails
    /// as the first transaction does whose proof cannot be made.
    pub fn generate_batch_proofs(&self, transactions: &Vec<WhaleTransactionInputs>, now: i64) -> (made:
        Result<Vec<ZKProof>, ZKWatchError>)
        ensures
            made is Ok <==> forall|i: int|
                0 <= i < transactions.len() ==> transaction_preimage(
                    #[trigger] transactions[i],
                ).len() < DIGEST_INPUT_LIMIT,
            made matches Ok(proofs) ==> proofs.len() == transactions.len() && forall|i: int|
                0 <= i < proofs.len() ==> is_proof_around(
                    #[trigger] proofs[i],
                    sha256(transaction_preimage(transactions[i])),
                    transactions[i],
                    self.key(),
                    now,
                ),
            made matches Err(e) ==> e is Crypto,
    {
        let n = transactions.len();
        let mut proofs: Vec<ZKProof> = Vec::new();
        let mut k: usize = 0;
        while k < n
            invariant
                n == transactions.len(),
                k <= n,
                proofs.len() == k,
                forall|i: int|
                    0 <= i < k ==> transaction_preimage(#[trigger] transactions[i]).len()
                        < DIGEST_INPUT_LIMIT,
                forall|i: int|
                    0 <= i < k ==> is_proof_around(
                        #[trigger] proofs[i],
                        sha256(transaction_preimage(transactions[i])),
                        transactions[i],
                        self.key(),
                        now,
                    ),
            decreases n - k,
        {
            match self.generate_whale_transaction_proof(&transactions[k], now) {
                Ok(proof) => {
                    proofs.push(proof);
                },
                Err(e) => {
                    return Err(e);
                },
            }
            k = k + 1;
        }
        Ok(proofs)
    }
}

/// The key the transaction proofs are checked with.
pub fn generate_verification_key() -> (key: String)
    ensures
        key@ == SNARK_VERIFICATION_KEY@,
{
    SNARK_VERIFICATION_KEY.to_owned()
}

/// The trace of a computation: for each step the step and its two
/// successors.
pub fn generate_stark_trace(witness: &StarkWitness) -> (trace: Vec<Vec<u64>>)
    ensures
        trace.len() == witness.computation_steps.len(),
        forall|i: int|
            0 <= i < trace.len() ==> (#[trigger] trace[i])@ == trace_row(
                witness.computation_steps[i],
            ),
{
    let n = witness.computation_steps.len();
    let mut trace: Vec<Vec<u64>> = Vec::new();
    let mut k: usize = 0;
    while k < n
        invariant
            n == witness.computation_steps.len(),
            k <= n,
            trace.len() == k,
            forall|i: int|
                0 <= i < k ==> (#[trigger] trace[i])@ == trace_row(witness.computation_steps[i]),
        decreases n - k,
    {
        let step = witness.computation_steps[k];
        let mut row: Vec<u64> = Vec::new();
        row.push(step);
        row.push(next_after(step));
        row.push(next_after(next_after(step)));
        assert(row@ =~= trace_row(step));
        trace.push(row);
        k = k + 1;
    }
    trace
}

/// Makes the proofs about computations.
#[derive(Clone, Copy, Debug, PartialEq, Eq, Structural)]
pub struct ZKSTARKGenerator {
    security_level: u32,
    field_prime: u64,
}

impl ZKSTARKGenerator {
    /// The security level the generator was made with.
    pub closed spec fn level(&self) -> u32 {
        self.security_level
    }

    /// The prime of the generator's field.
    pub closed spec fn prime(&self) -> u64 {
        self.field_prime
    }

    /// A generator of the given security level over the usual field.
    pub fn new(security_level: u32) -> (generator: ZKSTARKGenerator)
        ensures
            generator.level() == security_level,
            generator.prime() == STARK_FIELD_PRIME,
    {
        ZKSTARKGenerator { security_level, field_prime: STARK_FIELD_PRIME }
    }

    /// Makes the proof about a computation: the digest of the program's
    /// hash and the trace of the computation.
    ///
    /// Fails with `Crypto` exactly when those are too long to take a
    /// digest of.
    pub fn generate_stark_proof(&self, witness: &StarkWitness, program_hash: &str, now: i64) -> (made:
        Result<ZKProof, ZKWatchError>)
        ensures
            made is Ok <==> stark_preimage(program_hash@, witness.computation_steps@).len()
                < DIGEST_INPUT_LIMIT,
            made matches Ok(proof) ==> {
                &&& proof.proof_data@ == sha256(
                    stark_preimage(program_hash@, witness.computation_steps@),
                )
                &&& texts(proof.public_inputs@) == seq![program_hash@]
                &&& proof.verification_key@ == stark_key(self.level(), self.prime())
                &&& proof.timestamp == now
                &&& well_formed(proof)
            },
            made matches Err(e) ==> e is Crypto,
    {
        let trace = generate_stark_trace(witness);
        let ghost steps = witness.computation_steps@;
        let n = trace.len();
        let mut data: Vec<u8> = Vec::new();
        push_text_bytes(&mut data, program_hash);
        let ghost head = data@;
        let mut k: usize = 0;
        while k < n
            invariant
                n == trace.len(),
                n == steps.len(),
                steps == witness.computation_steps@,
                k <= n,
                head == encode_utf8(program_hash@),
                forall|i: int| 0 <= i < n ==> (#[trigger] trace[i])@ == trace_row(steps[i]),
                data@ == head + trace_bytes(steps, k as nat),
            decreases n - k,
        {
            let row = &trace[k];
            assert(row@ == trace_row(steps[k as int]));
            let ghost before = data@;
            push_big_endian(&mut data, row[0], 8);
            push_big_endian(&mut data, row[1], 8);
            push_big_endian(&mut data, row[2], 8);
            assert(data@ =~= head + trace_bytes(steps, (k + 1) as nat));
            k = k + 1;
        }
        if data.len() as u64 >= DIGEST_INPUT_LIMIT {
            return Err(ZKWatchError::Crypto);
        }
        let proof_data = sha256_of(&data);
        let mut public_inputs: Vec<String> = Vec::new();
        public_inputs.push(program_hash.to_owned());
        assert(texts(public_inputs@) =~= seq![program_hash@]);
        let mut verification_key = "stark_vk_".to_owned();
        push_decimal(&mut verification_key, self.security_level as i128);
        verification_key.append("_");
        push_decimal(&mut verification_key, self.field_prime as i128);
        Ok(ZKProof { proof_data, public_inputs, verification_key, timestamp: now })
    }
}

} // verus!
