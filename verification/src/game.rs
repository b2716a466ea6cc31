//! One game as the player sees it: the commitment is checked first, then
//! every answer, and the game ends at the first proof that fails.

use vstd::prelude::*;
use crate::crypto::CODE_LENGTH;
use crate::crypto::DIGEST_LENGTH;
use crate::proof_service::accepted;
use crate::proof_service::declaration_input;
use crate::proof_service::guess_input;
use crate::proof_service::verify;
use crate::proof_service::verify_guess;
use crate::proof_service::Proof;
use crate::utils::is_color_letter;
use crate::utils::spells_code;

verus! {

/// Number of guesses that a player has.
pub const GUESSES: usize = 8;

/// Where a game stands.
#[derive(Clone, Copy, Debug, PartialEq, Eq, Structural)]
pub enum Phase {
    /// The host has not committed yet.
    Uncommitted,
    /// The host's commitment was proved; no guess was answered yet.
    Committed,
    /// At least one guess was answered and proved, and the game goes on.
    Answering,
    /// The game is over: the code was found or the guesses are used up.
    Revealed,
    /// A proof was missing or failed verification: the host is caught.
    Caught,
}

/// The row of pegs shown for an answer: `z` for each exact match, then `y` for
/// each extra match, then `x`.
pub open spec fn peg_row(exact: int, extra: int) -> Seq<char> {
    Seq::new(
        CODE_LENGTH as nat,
        |j: int|
            if j < exact {
                'z'
            } else if j < exact + extra {
                'y'
            } else {
                'x'
            },
    )
}

/// The phase that follows an answer whose proof was accepted.
pub open spec fn after_answer(exact: int, answered: int) -> Phase {
    if exact == CODE_LENGTH || answered == GUESSES {
        Phase::Revealed
    } else {
        Phase::Answering
    }
}

/// The state of one game on the player's side.
pub struct Session {
    phase: Phase,
    hash_commited: [u8; DIGEST_LENGTH],
    responses: Vec<[char; CODE_LENGTH]>,
    success: bool,
}

impl Session {
    /// Where the game stands.
    pub closed spec fn spec_phase(&self) -> Phase {
        self.phase
    }

    /// The hash that the host committed to. It means nothing before the commitment.
    pub closed spec fn spec_hash(&self) -> Seq<u8> {
        self.hash_commited@
    }

    /// The rows of pegs of the answers accepted so far.
    pub closed spec fn spec_responses(&self) -> Seq<Seq<char>> {
        Seq::new(self.responses@.len(), |i: int| self.responses@[i]@)
    }

    /// The code was found.
    pub closed spec fn spec_success(&self) -> bool {
        self.success
    }

    /// What holds of every game: no more answers are accepted than there are
    /// guesses, a game that goes on has guesses left, and before the first
    /// answer nothing is shown.
    pub closed spec fn inv(&self) -> bool {
        &&& self.responses@.len() <= GUESSES
        &&& self.phase == Phase::Answering ==> 0 < self.responses@.len() < GUESSES
        &&& (self.phase == Phase::Uncommitted || self.phase == Phase::Committed)
            ==> self.responses@.len() == 0
        &&& self.success ==> self.phase == Phase::Revealed
    }

    /// A game that waits for the host's commitment.
    pub fn new() -> (session: Self)
        ensures
            session.inv(),
            session.spec_phase() == Phase::Uncommitted,
            session.spec_responses() == Seq::<Seq<char>>::empty(),
            !session.spec_success(),
    {
        let session = Session {
            phase: Phase::Uncommitted,
            hash_commited: [0; DIGEST_LENGTH],
            responses: Vec::new(),
            success: false,
        };
        assert(session.spec_responses() =~= Seq::<Seq<char>>::empty());
        session
    }

    /// Where the game stands.
    pub fn phase(&self) -> (phase: Phase)
        ensures
            phase == self.spec_phase(),
    {
        self.phase
    }

    /// The hash that the host committed to.
    pub fn hash(&self) -> (hash: [u8; DIGEST_LENGTH])
        ensures
            hash@ == self.spec_hash(),
    {
        self.hash_commited
    }

    /// Number of answers accepted so far.
    pub fn guesses_cnt(&self) -> (count: usize)
        ensures
            count == self.spec_responses().len(),
    {
        self.responses.len()
    }

    /// The row of pegs of the answer number `i`.
    pub fn response(&self, i: usize) -> (row: [char; CODE_LENGTH])
        requires
            i < self.spec_responses().len(),
        ensures
            row@ == self.spec_responses()[i as int],
    {
        self.responses[i]
    }

    /// Tells whether the code was found.
    pub fn success(&self) -> (success: bool)
        ensures
            success == self.spec_success(),
    {
        self.success
    }

    /// Takes the host's commitment. The game starts if `proof` shows that
    /// `hash` opens to a valid code; otherwise the host is caught and no game
    /// can start.
    pub fn commit(&mut self, hash: [u8; DIGEST_LENGTH], proof: Proof) -> (started: bool)
        requires
            old(self).inv(),
            old(self).spec_phase() == Phase::Uncommitted,
        ensures
            final(self).inv(),
            started == accepted(proof, declaration_input(hash@)),
            started ==> final(self).spec_phase() == Phase::Committed && final(self).spec_hash()
                == hash@,
            !started ==> final(self).spec_phase() == Phase::Caught,
            final(self).spec_responses() == old(self).spec_responses(),
            !final(self).spec_success(),
    {
        if verify(hash, proof) {
            self.hash_commited = hash;
            self.phase = Phase::Committed;
            true
        } else {
            self.phase = Phase::Caught;
            false
        }
    }

    /// Takes the host's answer to a guess: `exact` exact and `extra` extra
    /// matches, with the proof `certificate` if the prover gave one.
    ///
    /// The answer counts if it is well formed and the proof shows, for the hash
    /// committed to, `exact` exact matches and a total overlap of `exact +
    /// extra`. Then its row of pegs is recorded, and the game is over if all
    /// positions match or if this was the last guess. An answer that does not
    /// count ends the game: the host is caught.
    pub fn answer(&mut self, exact: usize, extra: usize, certificate: Option<Proof>) -> (counted: bool)
        requires
            old(self).inv(),
            old(self).spec_phase() == Phase::Committed || old(self).spec_phase()
                == Phase::Answering,
        ensures
            final(self).inv(),
            counted == (exact + extra <= CODE_LENGTH && certificate.is_some() && accepted(
                certificate.unwrap(),
                guess_input(old(self).spec_hash(), exact as u8, (exact + extra) as u8),
            )),
            final(self).spec_hash() == old(self).spec_hash(),
            counted ==> final(self).spec_responses() == old(self).spec_responses().push(
                peg_row(exact as int, extra as int),
            ),
            counted ==> final(self).spec_phase() == after_answer(
                exact as int,
                (old(self).spec_responses().len() + 1) as int,
            ),
            counted ==> final(self).spec_success() == (exact == CODE_LENGTH),
            !counted ==> final(self).spec_phase() == Phase::Caught,
            !counted ==> final(self).spec_responses() == old(self).spec_responses(),
            !counted ==> !final(self).spec_success(),
    {
        let verified = match certificate {
            Some(given) => exact <= CODE_LENGTH && extra <= CODE_LENGTH - exact && verify_guess(
                self.hash_commited,
                exact as u8,
                (exact + extra) as u8,
                given,
            ),
            None => false,
        };
        if !verified {
            self.phase = Phase::Caught;
            return false;
        }
        let row = response_row(exact, extra);
        let ghost before = self.spec_responses();
        self.responses.push(row);
        assert(self.spec_responses() =~= before.push(peg_row(exact as int, extra as int)));
        if exact == CODE_LENGTH {
            self.success = true;
        }
        if exact == CODE_LENGTH || self.responses.len() == GUESSES {
            self.phase = Phase::Revealed;
        } else {
            self.phase = Phase::Answering;
        }
        true
    }
}

/// The row of pegs for an answer: all positions start out as `x`, the first
/// `exact + extra` are set to `y`, and the first `exact` of those to `z`.
pub fn response_row(exact: usize, extra: usize) -> (row: [char; CODE_LENGTH])
    requires
        exact + extra <= CODE_LENGTH,
    ensures
        row@ == peg_row(exact as int, extra as int),
{
    let mut response: [char; CODE_LENGTH] = ['x'; CODE_LENGTH];
    let common = exact + extra;
    let mut j: usize = 0;
    while j < common
        invariant
            j <= common <= CODE_LENGTH,
            forall|k: int| 0 <= k < j ==> response@[k] == 'y',
            forall|k: int| j <= k < CODE_LENGTH ==> response@[k] == 'x',
        decreases common - j,
    {
        response[j] = 'y';
        j += 1;
    }
    let mut j: usize = 0;
    while j < exact
        invariant
            j <= exact <= common <= CODE_LENGTH,
            forall|k: int| 0 <= k < j ==> response@[k] == 'z',
            forall|k: int| j <= k < common ==> response@[k] == 'y',
            forall|k: int| common <= k < CODE_LENGTH ==> response@[k] == 'x',
        decreases exact - j,
    {
        response[j] = 'z';
        j += 1;
    }
    assert(response@ =~= peg_row(exact as int, extra as int));
    response
}

/// Tells whether `sequence` spells a code: four letters, each from `a` to `h`.
pub fn is_guess(sequence: &str) -> (b: bool)
    ensures
        b == spells_code(sequence@),
{
    if sequence.unicode_len() != CODE_LENGTH {
        return false;
    }
    let mut i: usize = 0;
    while i < CODE_LENGTH
        invariant
            i <= CODE_LENGTH,
            sequence@.len() == CODE_LENGTH,
            forall|k: int| 0 <= k < i ==> is_color_letter(#[trigger] sequence@[k]),
        decreases CODE_LENGTH - i,
    {
        let c = sequence.get_char(i);
        if !('a' <= c && c <= 'h') {
            return false;
        }
        i += 1;
    }
    true
}

} // verus!
