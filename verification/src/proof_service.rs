//! Public inputs of the two circuits and the verification of proofs.

use vstd::prelude::*;
use ark_bls12_381::Bls12_381;
use ark_bls12_381::Fr;
use ark_groth16::Groth16;
use ark_groth16::VerifyingKey;
use ark_serialize::CanonicalDeserialize;
use ark_snark::SNARK;
use crate::crypto::DIGEST_LENGTH;

verus! {

/// Bit `j` of `byte`, the least significant bit being bit 0.
pub open spec fn bit_of(byte: u8, j: u8) -> u8 {
    (byte >> j) & 1
}

/// The bits of a hash as field elements, each zero or one: byte by byte in
/// the order of the hash, and within each byte from the least significant bit
/// to the most significant.
pub open spec fn hash_bits(hash: Seq<u8>) -> Seq<u8> {
    Seq::new(8 * hash.len(), |k: int| bit_of(hash[k / 8], (k % 8) as u8))
}

/// The public input of the declaration circuit for `hash`.
pub open spec fn declaration_input(hash: Seq<u8>) -> Seq<u8> {
    hash_bits(hash)
}

/// The public input of the guess circuit: the bits of the hash, then the
/// number of exact matches, then the total color overlap.
pub open spec fn guess_input(hash: Seq<u8>, correct: u8, common: u8) -> Seq<u8> {
    hash_bits(hash).push(correct).push(common)
}

/// Appends the 256 bits of `hash` to an empty vector.
fn bits_of_hash(hash: &[u8; DIGEST_LENGTH]) -> (input: Vec<u8>)
    ensures
        input@ == hash_bits(hash@),
{
    let mut input: Vec<u8> = Vec::new();
    let mut i: usize = 0;
    while i < DIGEST_LENGTH
        invariant
            i <= DIGEST_LENGTH,
            input@.len() == 8 * i,
            forall|k: int|
                0 <= k < 8 * i ==> #[trigger] input@[k] == bit_of(hash@[k / 8], (k % 8) as u8),
        decreases DIGEST_LENGTH - i,
    {
        let mut j: u8 = 0;
        while j < 8
            invariant
                i < DIGEST_LENGTH,
                j <= 8,
                input@.len() == 8 * i + j,
                forall|k: int|
                    0 <= k < 8 * i + j ==> #[trigger] input@[k] == bit_of(
                        hash@[k / 8],
                        (k % 8) as u8,
                    ),
            decreases 8 - j,
        {
            let bit = (hash[i] >> j) & 1;
            input.push(bit);
            j += 1;
        }
        i += 1;
    }
    assert(input@ =~= hash_bits(hash@));
    input
}

/// The public input of the declaration circuit: one field element per bit of
/// the hash. A field element is held as the small integer it stands for.
pub struct PublicInput(pub Vec<u8>);

impl PublicInput {
    /// Encodes the public input of the declaration circuit for the hash `value`.
    pub fn from(value: [u8; DIGEST_LENGTH]) -> (r: Self)
        ensures
            r.0@ == declaration_input(value@),
    {
        PublicInput(bits_of_hash(&value))
    }
}

/// The public input of the guess circuit: one field element per bit of the
/// hash, then `correct`, then `common`. A field element is held as the small
/// integer it stands for.
pub struct PublicGuessInput(pub Vec<u8>);

impl PublicGuessInput {
    /// Encodes the public input of the guess circuit for a hash, a number of
    /// exact matches and a total color overlap, given in that order.
    pub fn from(value: ([u8; DIGEST_LENGTH], u8, u8)) -> (r: Self)
        ensures
            r.0@ == guess_input(value.0@, value.1, value.2),
    {
        let mut input = bits_of_hash(&value.0);
        input.push(value.1);
        input.push(value.2);
        PublicGuessInput(input)
    }
}

/// A Groth16 proof over BLS12-381 together with the verifying key that checks
/// it, each in the compressed canonical encoding of `ark-serialize`.
pub struct Proof {
    pub proof: Vec<u8>,
    pub vk: Vec<u8>,
}

/// What Groth16 verification over BLS12-381 answers for the verifying key that
/// `vk` encodes, the public input whose field elements are the integers of
/// `public_input`, and the proof that `proof` encodes: `None` where the bytes
/// encode no key or no proof or where verification ends in an error.
pub uninterp spec fn groth16_verdict(vk: Seq<u8>, public_input: Seq<u8>, proof: Seq<u8>) -> Option<
    bool,
>;

/// Decodes key and proof with `CanonicalDeserialize::deserialize_compressed`,
/// lifts the public input into the scalar field and runs `Groth16::verify`.
/// The answer depends on the bytes alone; an error at any step gives `None`.
#[verifier::external_body]
pub(crate) fn groth16_verify(vk: &Vec<u8>, public_input: &Vec<u8>, proof: &Vec<u8>) -> (verdict:
    Option<bool>)
    ensures
        verdict == groth16_verdict(vk@, public_input@, proof@),
{
    let vk = VerifyingKey::<Bls12_381>::deserialize_compressed(vk.as_slice()).ok()?;
    let proof = ark_groth16::Proof::<Bls12_381>::deserialize_compressed(proof.as_slice()).ok()?;
    let input: Vec<Fr> = public_input.iter().map(|element| Fr::from(*element)).collect();
    Groth16::<Bls12_381>::verify(&vk, &input, &proof).ok()
}

/// `proof` is accepted for the public input `public_input`: verification ends
/// without error and answers yes.
pub open spec fn accepted(proof: Proof, public_input: Seq<u8>) -> bool {
    groth16_verdict(proof.vk@, public_input, proof.proof@) == Some(true)
}

/// Checks a declaration proof: `proof` shows that `hash` opens to a valid code.
///
/// A proof that is malformed, that was made for another hash or that belongs to
/// another circuit is refused, never an error.
pub fn verify(hash: [u8; DIGEST_LENGTH], proof: Proof) -> (valid: bool)
    ensures
        valid == accepted(proof, declaration_input(hash@)),
{
    let input = PublicInput::from(hash);
    match groth16_verify(&proof.vk, &input.0, &proof.proof) {
        Some(answer) => answer,
        None => false,
    }
}

/// Checks a guess proof: `proof` shows that the code committed to by `hash`
/// has `correct` exact matches with the guess and a total color overlap of
/// `common`.
///
/// A proof that is malformed, that was made for other public inputs or that
/// belongs to another circuit is refused, never an error.
pub fn verify_guess(hash: [u8; DIGEST_LENGTH], correct: u8, common: u8, proof: Proof) -> (valid:
    bool)
    ensures
        valid == accepted(proof, guess_input(hash@, correct, common)),
{
    let input = PublicGuessInput::from((hash, correct, common));
    match groth16_verify(&proof.vk, &input.0, &proof.proof) {
        Some(answer) => answer,
        None => false,
    }
}

} // verus!
