//! The declaration circuit: "this hash opens to a valid code".

use vstd::prelude::*;
use crate::crypto::open;
use crate::crypto::opens;
use crate::crypto::random_salt;
use crate::crypto::same_digest;
use crate::crypto::Code;
use crate::crypto::CODE_LENGTH;
use crate::crypto::COLOR_NUMBER;
use crate::crypto::DIGEST_LENGTH;

verus! {

/// An instance of the declaration circuit with its witness.
///
/// `hash` is the public input. `code` and `salt` are the witness, known to the
/// host alone.
#[derive(Clone, Copy, Debug)]
pub struct CodeDeclarationCircuit {
    pub code: Code,
    pub salt: [u8; DIGEST_LENGTH],
    pub hash: [u8; DIGEST_LENGTH],
}

impl CodeDeclarationCircuit {
    /// The relation that the circuit's constraints encode: the public hash is
    /// the commitment to the code under the salt, and every color of the code
    /// lies in the alphabet.
    pub open spec fn satisfied(&self) -> bool {
        &&& opens(self.code@, self.salt@, self.hash@)
        &&& self.code.valid()
    }

    /// Commits to `code` under a fresh salt and returns the instance that
    /// declares the commitment.
    pub fn from(code: Code) -> (r: Self)
        ensures
            r.code == code,
            opens(code@, r.salt@, r.hash@),
            r.satisfied() <==> code.valid(),
    {
        let salt = random_salt();
        let hash = open(&code, &salt);
        CodeDeclarationCircuit { code, salt, hash }
    }

    /// Evaluates the circuit on its witness, constraint by constraint: the hash
    /// is recomputed from code and salt and compared with the public hash byte
    /// by byte, then every color is held to the alphabet.
    pub fn is_satisfied(&self) -> (b: bool)
        ensures
            b == self.satisfied(),
    {
        let digest = open(&self.code, &self.salt);
        let hash_matches = same_digest(&self.hash, &digest);
        let in_range = self.code.is_valid();
        hash_matches && in_range
    }
}

/// A witness that holds a color outside the alphabet satisfies the circuit
/// under no hash.
pub proof fn lemma_out_of_alphabet_unsatisfied(circuit: CodeDeclarationCircuit, i: int)
    requires
        0 <= i < CODE_LENGTH,
        circuit.code@[i] >= COLOR_NUMBER,
    ensures
        !circuit.satisfied(),
{
}

/// A witness of colors of the alphabet satisfies the circuit under the hash
/// that commits to it.
pub proof fn lemma_commitment_satisfies(circuit: CodeDeclarationCircuit)
    requires
        circuit.code.valid(),
        opens(circuit.code@, circuit.salt@, circuit.hash@),
    ensures
        circuit.satisfied(),
{
}

} // verus!
