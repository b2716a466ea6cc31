//! The guess circuit: "this feedback is what the committed code owes to this guess".

use vstd::prelude::*;
use crate::crypto::in_alphabet;
use crate::crypto::open;
use crate::crypto::opens;
use crate::crypto::random_salt;
use crate::crypto::same_digest;
use crate::crypto::Code;
use crate::crypto::CODE_LENGTH;
use crate::crypto::COLOR_NUMBER;
use crate::crypto::DIGEST_LENGTH;
use crate::feedback::feedback_of;
use crate::overlap::exact_matches;
use crate::overlap::indicator;
use crate::overlap::lemma_count_positions;
use crate::overlap::lemma_feedback_bounds;
use crate::overlap::lemma_occurrences_bounded;
use crate::overlap::lemma_occurrences_empty;
use crate::overlap::lemma_occurrences_push;
use crate::overlap::lemma_overlap_empty;
use crate::overlap::lemma_overlap_push;
use crate::overlap::matches_below;
use crate::overlap::occurrences;
use crate::overlap::overlap;

verus! {

/// An instance of the guess circuit with its witness.
///
/// The public inputs are `hash`, `correct` and `common`, in that order.
/// `correct` is the number of exact matches. `common` is the *total* color
/// overlap, exact matches included: the circuit counts shared colors bucket by
/// bucket and an exact match is a shared color. A caller that holds feedback as
/// exact and extra matches passes their sum here.
///
/// `code`, `guess` and `salt` are the witness.
#[derive(Clone, Copy, Debug)]
pub struct GuessCircuit {
    pub code: Code,
    pub guess: Code,
    pub salt: [u8; DIGEST_LENGTH],
    pub hash: [u8; DIGEST_LENGTH],
    pub correct: u8,
    pub common: u8,
}

/// The smaller of two numbers.
pub open spec fn smaller(x: nat, y: nat) -> nat {
    if x <= y {
        x
    } else {
        y
    }
}

/// What the circuit accumulates over the first `colors` colors: for each color
/// the smaller of the number of times it occurs in `code` and in `guess`.
pub open spec fn bucket_overlap(code: Seq<u8>, guess: Seq<u8>, colors: int) -> nat
    decreases colors,
{
    if colors <= 0 {
        0
    } else {
        bucket_overlap(code, guess, colors - 1) + smaller(
            occurrences(code, (colors - 1) as u8),
            occurrences(guess, (colors - 1) as u8),
        )
    }
}

/// Appending the color `x` to the code raises the sum over the first `colors`
/// buckets by one exactly when `x` has a bucket among them and the guess holds
/// more copies of `x` than the code did.
proof fn lemma_bucket_overlap_push(code: Seq<u8>, guess: Seq<u8>, x: u8, colors: int)
    requires
        0 <= colors <= 256,
    ensures
        bucket_overlap(code.push(x), guess, colors) == bucket_overlap(code, guess, colors)
            + indicator(x < colors && occurrences(code, x) < occurrences(guess, x)),
    decreases colors,
{
    if colors > 0 {
        lemma_bucket_overlap_push(code, guess, x, colors - 1);
        lemma_occurrences_push(code, x, (colors - 1) as u8);
    }
}

/// Nothing is shared with an empty code.
proof fn lemma_bucket_overlap_empty(code: Seq<u8>, guess: Seq<u8>, colors: int)
    requires
        code.len() == 0,
        0 <= colors <= 256,
    ensures
        bucket_overlap(code, guess, colors) == 0,
    decreases colors,
{
    if colors > 0 {
        lemma_bucket_overlap_empty(code, guess, colors - 1);
        lemma_occurrences_empty(code, (colors - 1) as u8);
    }
}

/// For a code whose colors all lie in the alphabet, the bucket-by-bucket sum
/// of the circuit is the size of the multiset intersection of code and guess.
pub proof fn lemma_bucket_overlap_is_overlap(code: Seq<u8>, guess: Seq<u8>)
    requires
        in_alphabet(code),
    ensures
        bucket_overlap(code, guess, COLOR_NUMBER as int) == overlap(code, guess),
    decreases code.len(),
{
    if code.len() == 0 {
        lemma_bucket_overlap_empty(code, guess, COLOR_NUMBER as int);
        lemma_overlap_empty(code, guess);
    } else {
        let front = code.drop_last();
        let x = code.last();
        assert(code =~= front.push(x));
        assert(in_alphabet(front)) by {
            assert forall|i: int| 0 <= i < front.len() implies #[trigger] front[i]
                < COLOR_NUMBER by {
                assert(front[i] == code[i]);
            }
        }
        assert(x < COLOR_NUMBER) by {
            assert(x == code[code.len() - 1]);
        }
        lemma_bucket_overlap_is_overlap(front, guess);
        lemma_bucket_overlap_push(front, guess, x, COLOR_NUMBER as int);
        lemma_overlap_push(front, guess, x);
    }
}

/// For a code of colors of the alphabet, an instance that opens its hash
/// satisfies the circuit exactly when it claims the true feedback: `correct`
/// is the number of exact matches and `common` the sum of exact and extra
/// matches. Any other claim leaves the circuit unsatisfied.
pub proof fn lemma_satisfied_by_true_feedback_only(circuit: GuessCircuit)
    requires
        circuit.code.valid(),
        opens(circuit.code@, circuit.salt@, circuit.hash@),
    ensures
        circuit.satisfied() <==> circuit.correct == feedback_of(
            circuit.code@,
            circuit.guess@,
        ).exact && circuit.common == feedback_of(circuit.code@, circuit.guess@).spec_total(),
{
    lemma_feedback_bounds(circuit.code@, circuit.guess@);
    lemma_bucket_overlap_is_overlap(circuit.code@, circuit.guess@);
}

/// How often each of the eight colors occurs in `code`: one running sum per
/// color, raised wherever a position of the code equals that color.
pub fn histogram(code: &Code) -> (sums: [u8; COLOR_NUMBER])
    ensures
        forall|c: int| 0 <= c < COLOR_NUMBER ==> #[trigger] sums@[c] == occurrences(code@, c as u8),
{
    let mut sums: [u8; COLOR_NUMBER] = [0; COLOR_NUMBER];
    let mut c: usize = 0;
    while c < COLOR_NUMBER
        invariant
            c <= COLOR_NUMBER,
            forall|k: int| 0 <= k < c ==> #[trigger] sums@[k] == occurrences(code@, k as u8),
        decreases COLOR_NUMBER - c,
    {
        let mut sum: u8 = 0;
        let mut i: usize = 0;
        proof {
            lemma_occurrences_empty(code@.take(0), c as u8);
        }
        while i < CODE_LENGTH
            invariant
                i <= CODE_LENGTH,
                c < COLOR_NUMBER,
                sum == occurrences(code@.take(i as int), c as u8),
                sum <= i,
            decreases CODE_LENGTH - i,
        {
            proof {
                assert(code@.take(i as int + 1) =~= code@.take(i as int).push(code@[i as int]));
                lemma_occurrences_push(code@.take(i as int), code@[i as int], c as u8);
            }
            if code.colors[i] as usize == c {
                sum += 1;
            }
            i += 1;
        }
        assert(code@.take(CODE_LENGTH as int) =~= code@);
        sums[c] = sum;
        c += 1;
    }
    sums
}

impl GuessCircuit {
    /// The relation that the circuit's constraints encode: the public hash is
    /// the commitment to the code under the salt, `correct` is the number of
    /// positions at which code and guess agree, and `common` is the sum over
    /// the eight colors of the smaller of the two histogram buckets.
    pub open spec fn satisfied(&self) -> bool {
        &&& opens(self.code@, self.salt@, self.hash@)
        &&& self.correct == exact_matches(self.code@, self.guess@)
        &&& self.common == bucket_overlap(self.code@, self.guess@, COLOR_NUMBER as int)
    }

    /// Commits to the code under a fresh salt and returns the instance that
    /// claims `correct` exact matches and a total overlap of `common` for the
    /// guess. The argument holds code, guess, `correct` and `common`.
    pub fn from(code_guess: (Code, Code, u8, u8)) -> (r: Self)
        ensures
            r.code == code_guess.0,
            r.guess == code_guess.1,
            r.correct == code_guess.2,
            r.common == code_guess.3,
            opens(r.code@, r.salt@, r.hash@),
    {
        let salt = random_salt();
        let hash = open(&code_guess.0, &salt);
        GuessCircuit {
            code: code_guess.0,
            guess: code_guess.1,
            salt,
            hash,
            correct: code_guess.2,
            common: code_guess.3,
        }
    }

    /// Evaluates the circuit on its witness, constraint by constraint.
    ///
    /// The hash is recomputed and compared with the public hash. A counter is
    /// raised at each position where code and guess agree and compared with
    /// `correct`. Two histograms of eight buckets are built, the smaller bucket
    /// of each color is accumulated, and the total is compared with `common`.
    pub fn is_satisfied(&self) -> (b: bool)
        ensures
            b == self.satisfied(),
    {
        let digest = open(&self.code, &self.salt);
        let hash_matches = same_digest(&self.hash, &digest);

        let mut counter: u8 = 0;
        let mut i: usize = 0;
        while i < CODE_LENGTH
            invariant
                i <= CODE_LENGTH,
                counter == matches_below(self.code@, self.guess@, i as int),
                counter <= i,
            decreases CODE_LENGTH - i,
        {
            if self.code.colors[i] == self.guess.colors[i] {
                counter += 1;
            }
            i += 1;
        }

        proof {
            lemma_count_positions(self.code@, self.guess@, CODE_LENGTH as int);
        }

        let guess_sums = histogram(&self.guess);
        let code_sums = histogram(&self.code);
        let mut total: u8 = 0;
        let mut c: usize = 0;
        while c < COLOR_NUMBER
            invariant
                c <= COLOR_NUMBER,
                total == bucket_overlap(self.code@, self.guess@, c as int),
                total <= CODE_LENGTH * c,
                forall|k: int|
                    0 <= k < COLOR_NUMBER ==> #[trigger] code_sums@[k] == occurrences(
                        self.code@,
                        k as u8,
                    ),
                forall|k: int|
                    0 <= k < COLOR_NUMBER ==> #[trigger] guess_sums@[k] == occurrences(
                        self.guess@,
                        k as u8,
                    ),
            decreases COLOR_NUMBER - c,
        {
            proof {
                lemma_occurrences_bounded(self.code@, c as u8);
                assert(code_sums@[c as int] <= CODE_LENGTH);
            }
            if code_sums[c] <= guess_sums[c] {
                total += code_sums[c];
            } else {
                total += guess_sums[c];
            }
            c += 1;
        }
        hash_matches && self.correct == counter && self.common == total
    }
}

} // verus!
