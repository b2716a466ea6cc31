//! The three host strategies: honest, evil and cheating.
//!
//! A host commits to a code and answers guesses. It hands out no proof of its
//! own: with every commitment and every answer it returns the circuit instance
//! that a prover turns into the proof.

use vstd::prelude::*;
use rand::Rng;
use crate::candidates::all_codes;
use crate::candidates::answering;
use crate::candidates::candidate_set;
use crate::candidates::lemma_prune;
use crate::candidates::lemma_worst_case_is_given;
use crate::candidates::numbered;
use crate::candidates::prune;
use crate::candidates::worst_answer;
use crate::candidates::worst_case;
use crate::candidates::Answer;
use crate::candidates::CODE_COUNT;
use crate::code_circuit::CodeDeclarationCircuit;
use crate::crypto::open;
use crate::crypto::is_code;
use crate::crypto::opens;
use crate::crypto::random_salt;
use crate::crypto::Code;
use crate::crypto::CODE_LENGTH;
use crate::crypto::COLOR_NUMBER;
use crate::crypto::DIGEST_LENGTH;
use crate::feedback::evaluate;
use crate::feedback::feedback_of;
use crate::feedback::Feedback;
use crate::guess_circuit::lemma_bucket_overlap_is_overlap;
use crate::guess_circuit::lemma_satisfied_by_true_feedback_only;
use crate::overlap::lemma_feedback_bounds;
use crate::overlap::overlap;
use crate::guess_circuit::GuessCircuit;
use crate::utils::spelled;
use crate::utils::spells_code;
use crate::utils::string_to_code;

verus! {

/// Draws an index below `bound` from the thread's generator with
/// `rand::Rng::gen_range`, which panics on an empty range and otherwise
/// returns a value of the range.
#[verifier::external_body]
pub(crate) fn random_below(bound: usize) -> (r: usize)
    requires
        bound > 0,
    ensures
        r < bound,
{
    rand::thread_rng().gen_range(0..bound)
}

/// What every host strategy offers: a commitment and an answer to each guess.
pub trait Host: Sized {
    /// The host's state is sound.
    spec fn inv(&self) -> bool;

    /// A host that is ready to commit.
    fn new() -> (host: Self)
        ensures
            host.inv(),
    ;

    /// The host's commitment: the hash, and the declaration circuit instance
    /// that proves it. The instance satisfies the circuit.
    fn get_hash_with_proof(&self) -> (r: ([u8; DIGEST_LENGTH], CodeDeclarationCircuit))
        requires
            self.inv(),
        ensures
            r.1.hash == r.0,
            r.1.satisfied(),
    ;

    /// The host's answer to the guess that `sequence` spells: the number of
    /// exact matches, the number of extra matches, and the guess circuit
    /// instance that a prover is to prove.
    ///
    /// The instance carries the guess and claims what the host answers: its
    /// `correct` is the number of exact matches and its `common` is the sum of
    /// exact and extra matches. Its hash is a commitment to its code, which is
    /// valid. Whether the instance satisfies the circuit depends on the host.
    fn guess(&mut self, sequence: String) -> (r: (usize, usize, GuessCircuit))
        requires
            old(self).inv(),
            spells_code(sequence@),
        ensures
            final(self).inv(),
            r.0 + r.1 <= CODE_LENGTH,
            r.2.guess@ == spelled(sequence@),
            r.2.correct == r.0,
            r.2.common == r.0 + r.1,
            r.2.code.valid(),
            opens(r.2.code@, r.2.salt@, r.2.hash@),
    ;
}

/// A host that draws a code at random and answers every guess truthfully.
pub struct HonestHost {
    code: Code,
    salt: [u8; DIGEST_LENGTH],
    hash: [u8; DIGEST_LENGTH],
}

impl HonestHost {
    /// The colors of the host's secret code.
    pub closed spec fn secret(&self) -> Seq<u8> {
        self.code@
    }

    /// The hash that the host committed to.
    pub closed spec fn commitment(&self) -> Seq<u8> {
        self.hash@
    }
}

impl Host for HonestHost {
    closed spec fn inv(&self) -> bool {
        &&& self.code.valid()
        &&& opens(self.code@, self.salt@, self.hash@)
    }

    /// A host with a code drawn at random, committed to under a fresh salt.
    fn new() -> (host: Self)
        ensures
            is_code(host.secret()),
    {
        let mut colors: [u8; CODE_LENGTH] = [0; CODE_LENGTH];
        let mut i: usize = 0;
        while i < CODE_LENGTH
            invariant
                i <= CODE_LENGTH,
                forall|k: int| 0 <= k < i ==> #[trigger] colors@[k] < COLOR_NUMBER,
            decreases CODE_LENGTH - i,
        {
            let color = random_below(COLOR_NUMBER);
            colors[i] = color as u8;
            i += 1;
        }
        let code = Code { colors };
        let salt = random_salt();
        let hash = open(&code, &salt);
        HonestHost { code, salt, hash }
    }

    fn get_hash_with_proof(&self) -> (r: ([u8; DIGEST_LENGTH], CodeDeclarationCircuit))
        ensures
            r.0@ == self.commitment(),
            r.1.code@ == self.secret(),
    {
        (self.hash, CodeDeclarationCircuit { code: self.code, salt: self.salt, hash: self.hash })
    }

    fn guess(&mut self, sequence: String) -> (r: (usize, usize, GuessCircuit))
        ensures
            *final(self) == *old(self),
            (Feedback { exact: r.0, extra: r.1 }) == feedback_of(
                old(self).secret(),
                spelled(sequence@),
            ),
            r.2.code@ == old(self).secret(),
            r.2.hash@ == old(self).commitment(),
            r.2.satisfied(),
    {
        let guess = string_to_code(sequence);
        let feedback = evaluate(&self.code, &guess);
        let circuit = GuessCircuit {
            code: self.code,
            guess,
            salt: self.salt,
            hash: self.hash,
            correct: feedback.exact as u8,
            common: (feedback.exact + feedback.extra) as u8,
        };
        proof {
            lemma_satisfied_by_true_feedback_only(circuit);
        }
        (feedback.exact, feedback.extra, circuit)
    }
}

/// A host that commits to the code of four times the color 1 and answers
/// every guess with no match at all.
pub struct EvilHost {
    code: Code,
    salt: [u8; DIGEST_LENGTH],
    hash: [u8; DIGEST_LENGTH],
}

/// The colors of the code that the evil host commits to.
pub open spec fn evil_code() -> Seq<u8> {
    seq![1u8, 1u8, 1u8, 1u8]
}

impl EvilHost {
    /// The hash that the host committed to.
    pub closed spec fn commitment(&self) -> Seq<u8> {
        self.hash@
    }
}

impl Host for EvilHost {
    closed spec fn inv(&self) -> bool {
        &&& self.code@ == evil_code()
        &&& opens(self.code@, self.salt@, self.hash@)
    }

    /// A host that has committed to its code under a fresh salt.
    fn new() -> (host: Self) {
        let code = Code { colors: [1, 1, 1, 1] };
        assert(code@ =~= evil_code());
        let salt = random_salt();
        let hash = open(&code, &salt);
        EvilHost { code, salt, hash }
    }

    fn get_hash_with_proof(&self) -> (r: ([u8; DIGEST_LENGTH], CodeDeclarationCircuit))
        ensures
            r.0@ == self.commitment(),
            r.1.code@ == evil_code(),
    {
        (self.hash, CodeDeclarationCircuit { code: self.code, salt: self.salt, hash: self.hash })
    }

    /// The answer is always no match, whatever the guess. The instance is
    /// bound to the committed code, so it satisfies the circuit only where the
    /// guess indeed shares no color with that code.
    fn guess(&mut self, sequence: String) -> (r: (usize, usize, GuessCircuit))
        ensures
            *final(self) == *old(self),
            r.0 == 0,
            r.1 == 0,
            r.2.code@ == evil_code(),
            r.2.hash@ == old(self).commitment(),
            r.2.satisfied() <==> overlap(evil_code(), spelled(sequence@)) == 0,
    {
        let guess = string_to_code(sequence);
        let circuit = GuessCircuit {
            code: self.code,
            guess,
            salt: self.salt,
            hash: self.hash,
            correct: 0,
            common: 0,
        };
        proof {
            lemma_feedback_bounds(circuit.code@, circuit.guess@);
            lemma_bucket_overlap_is_overlap(circuit.code@, circuit.guess@);
        }
        (0, 0, circuit)
    }
}

/// A host that fixes no secret: it keeps the set of the codes that fit all its
/// answers so far and gives each guess the answer that keeps that set largest.
pub struct CheatingHost {
    possible_sequences: Vec<Code>,
    history: Ghost<Seq<Answer>>,
}

impl CheatingHost {
    /// The codes that fit every answer given so far, in the order in which the
    /// host holds them.
    pub closed spec fn candidates(&self) -> Seq<Code> {
        self.possible_sequences@
    }

    /// The guesses answered so far, each with the feedback given.
    pub closed spec fn history(&self) -> Seq<Answer> {
        self.history@
    }

    /// Whatever guesses were answered, the candidates are the set of the codes
    /// that are consistent with the answers: there is a candidate left, and
    /// every candidate would have given every answer of the history.
    pub proof fn lemma_candidates_fit_history(&self)
        requires
            self.inv(),
        ensures
            candidate_set(self.candidates(), self.history()),
            self.candidates().len() > 0,
            forall|i: int, k: int|
                0 <= i < self.candidates().len() && 0 <= k < self.history().len() ==> feedback_of(
                    (#[trigger] self.candidates()[i])@,
                    (#[trigger] self.history()[k]).0,
                ) == self.history()[k].1,
    {
    }

    /// The codes that fit every answer given so far.
    pub fn possible_sequences(&self) -> (r: &Vec<Code>)
        ensures
            r@ == self.candidates(),
    {
        &self.possible_sequences
    }
}

impl Host for CheatingHost {
    closed spec fn inv(&self) -> bool {
        candidate_set(self.possible_sequences@, self.history@)
    }

    /// A host for which every valid code is still possible.
    fn new() -> (host: Self)
        ensures
            host.history() == Seq::<Answer>::empty(),
            host.candidates().len() == CODE_COUNT,
            forall|m: int| 0 <= m < CODE_COUNT ==> (#[trigger] host.candidates()[m])@ == numbered(m),
    {
        let s = all_codes();
        CheatingHost { possible_sequences: s, history: Ghost(Seq::empty()) }
    }

    /// The commitment is made afresh to the first candidate: the host has no
    /// secret of its own to commit to.
    fn get_hash_with_proof(&self) -> (r: ([u8; DIGEST_LENGTH], CodeDeclarationCircuit))
        ensures
            r.1.code == self.candidates()[0],
    {
        let representative = self.possible_sequences[0];
        assert(self.possible_sequences@[0].valid());
        let circuit = CodeDeclarationCircuit::from(representative);
        (circuit.hash, circuit)
    }

    /// The answer is the one that keeps most candidates. The candidates are
    /// pruned to those that give this answer, and the instance returned commits
    /// afresh to the first of them: it satisfies the circuit.
    fn guess(&mut self, sequence: String) -> (r: (usize, usize, GuessCircuit))
        ensures
            worst_case(
                old(self).candidates(),
                spelled(sequence@),
                (Feedback { exact: r.0, extra: r.1 }),
            ),
            final(self).candidates() == old(self).candidates().filter(
                answering((Feedback { exact: r.0, extra: r.1 }), spelled(sequence@)),
            ),
            final(self).history() == old(self).history().push(
                (spelled(sequence@), (Feedback { exact: r.0, extra: r.1 })),
            ),
            r.2.code == final(self).candidates()[0],
            r.2.satisfied(),
    {
        let guess = string_to_code(sequence);
        let answer = worst_answer(&self.possible_sequences, &guess);
        let kept = prune(&self.possible_sequences, &guess, answer);
        let ghost candidates = self.possible_sequences@;
        proof {
            lemma_worst_case_is_given(candidates, self.history@, guess@, answer);
            lemma_prune(candidates, self.history@, guess@, answer);
        }
        self.possible_sequences = kept;
        self.history = Ghost(self.history@.push((guess@, answer)));
        let representative = self.possible_sequences[0];
        proof {
            assert(self.possible_sequences@[0].valid());
            assert(self.possible_sequences@.contains(representative));
            candidates.lemma_filter_pred(answering(answer, guess@), 0);
            assert(feedback_of(representative@, guess@) == answer);
            lemma_feedback_bounds(representative@, guess@);
        }
        let circuit = GuessCircuit::from(
            (representative, guess, answer.exact as u8, (answer.exact + answer.extra) as u8),
        );
        proof {
            lemma_satisfied_by_true_feedback_only(circuit);
        }
        (answer.exact, answer.extra, circuit)
    }
}

} // verus!
