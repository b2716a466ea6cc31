//! Codes and the salted-hash commitment that binds a host to one.

use vstd::prelude::*;
use sha2::Digest;
use sha2::Sha256;

verus! {

/// Number of colors in the alphabet.
pub const COLOR_NUMBER: usize = 8;

/// Number of positions in a code.
pub const CODE_LENGTH: usize = 4;

/// An ordered sequence of four colors.
///
/// A code is *valid* when each color lies in `[0, COLOR_NUMBER)`. The field is
/// public so that an out-of-alphabet witness can be written down and shown to
/// be rejected.
#[derive(Clone, Copy, Debug)]
pub struct Code {
    pub colors: [u8; CODE_LENGTH],
}

impl View for Code {
    type V = Seq<u8>;

    open spec fn view(&self) -> Seq<u8> {
        self.colors@
    }
}

/// Every color of `colors` lies in the alphabet.
pub open spec fn in_alphabet(colors: Seq<u8>) -> bool {
    forall|i: int| 0 <= i < colors.len() ==> #[trigger] colors[i] < COLOR_NUMBER
}

/// `colors` are the colors of a valid code: four colors of the alphabet.
pub open spec fn is_code(colors: Seq<u8>) -> bool {
    colors.len() == CODE_LENGTH && in_alphabet(colors)
}

impl Code {
    /// The code has four colors, each in the alphabet.
    pub open spec fn valid(&self) -> bool {
        in_alphabet(self@)
    }

    /// Builds a code from four colors, refusing any color outside the alphabet.
    pub fn new(colors: [u8; CODE_LENGTH]) -> (r: Option<Code>)
        ensures
            r.is_some() <==> in_alphabet(colors@),
            r.is_some() ==> r.unwrap().colors == colors,
    {
        let code = Code { colors };
        if code.is_valid() {
            Some(code)
        } else {
            None
        }
    }

    /// Tells whether every color lies in the alphabet.
    pub fn is_valid(&self) -> (b: bool)
        ensures
            b == self.valid(),
    {
        let mut i: usize = 0;
        while i < CODE_LENGTH
            invariant
                i <= CODE_LENGTH,
                forall|k: int| 0 <= k < i ==> #[trigger] self@[k] < COLOR_NUMBER,
            decreases CODE_LENGTH - i,
        {
            if self.colors[i] as usize >= COLOR_NUMBER {
                return false;
            }
            i += 1;
        }
        true
    }
}

/// Number of bytes in a salt and in a digest.
pub const DIGEST_LENGTH: usize = 32;

/// The SHA-256 digest of `message`, as the `sha2` crate computes it.
pub uninterp spec fn sha256_digest(message: Seq<u8>) -> Seq<u8>;

/// The hash that commits to `colors` under `salt`: the SHA-256 digest of the
/// colors, one byte each, followed by the salt.
pub open spec fn commitment(colors: Seq<u8>, salt: Seq<u8>) -> Seq<u8> {
    sha256_digest(colors + salt)
}

/// `hash` is the commitment to `colors` under `salt`.
pub open spec fn opens(colors: Seq<u8>, salt: Seq<u8>, hash: Seq<u8>) -> bool {
    hash == commitment(colors, salt)
}

/// Opening a commitment with the code and the salt that it was made with
/// gives the committed hash again.
pub proof fn lemma_opening_reproduces_hash(
    colors: Seq<u8>,
    salt: Seq<u8>,
    committed: Seq<u8>,
    opened: Seq<u8>,
)
    requires
        opens(colors, salt, committed),
        opens(colors, salt, opened),
    ensures
        opened == committed,
{
}

/// Hashes `message` with `sha2::Sha256::digest`. The result is the SHA-256
/// digest of the message, a function of its bytes alone.
#[verifier::external_body]
pub(crate) fn sha256(message: &Vec<u8>) -> (digest: [u8; DIGEST_LENGTH])
    ensures
        digest@ == sha256_digest(message@),
{
    Sha256::digest(message.as_slice()).into()
}

/// Draws thirty-two bytes from the thread's generator with `rand::random`.
/// Nothing is known of them.
#[verifier::external_body]
pub(crate) fn random_salt() -> [u8; DIGEST_LENGTH] {
    rand::random::<[u8; DIGEST_LENGTH]>()
}

/// Recomputes the hash that commits to `code` under `salt`.
///
/// This opens a commitment outside any circuit; it serves to check a witness
/// before it is handed to a prover and is no substitute for the proof.
pub fn open(code: &Code, salt: &[u8; DIGEST_LENGTH]) -> (hash: [u8; DIGEST_LENGTH])
    ensures
        opens(code@, salt@, hash@),
{
    let mut message: Vec<u8> = Vec::new();
    let mut i: usize = 0;
    while i < CODE_LENGTH
        invariant
            i <= CODE_LENGTH,
            message@ == code@.take(i as int),
        decreases CODE_LENGTH - i,
    {
        message.push(code.colors[i]);
        assert(code@.take(i as int + 1) =~= code@.take(i as int).push(code@[i as int]));
        i += 1;
    }
    assert(code@.take(CODE_LENGTH as int) =~= code@);
    let mut j: usize = 0;
    while j < DIGEST_LENGTH
        invariant
            j <= DIGEST_LENGTH,
            message@ == code@ + salt@.take(j as int),
        decreases DIGEST_LENGTH - j,
    {
        message.push(salt[j]);
        assert(code@ + salt@.take(j as int + 1) =~= (code@ + salt@.take(j as int)).push(
            salt@[j as int],
        ));
        j += 1;
    }
    assert(salt@.take(DIGEST_LENGTH as int) =~= salt@);
    sha256(&message)
}

/// Tells whether two digests are the same, byte for byte.
pub fn same_digest(x: &[u8; DIGEST_LENGTH], y: &[u8; DIGEST_LENGTH]) -> (b: bool)
    ensures
        b == (x@ == y@),
{
    let mut i: usize = 0;
    while i < DIGEST_LENGTH
        invariant
            i <= DIGEST_LENGTH,
            forall|k: int| 0 <= k < i ==> x@[k] == y@[k],
        decreases DIGEST_LENGTH - i,
    {
        if x[i] != y[i] {
            return false;
        }
        i += 1;
    }
    assert(x@ =~= y@);
    true
}

} // verus!
