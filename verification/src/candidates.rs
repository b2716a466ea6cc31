//! The candidate set of the cheating host: the codes that fit every answer
//! given so far, and the answer that keeps that set largest.

use vstd::prelude::*;
use vstd::arithmetic::div_mod::lemma_fundamental_div_mod;
use vstd::arithmetic::div_mod::lemma_fundamental_div_mod_converse;
use itertools::Itertools;
use crate::crypto::is_code;
use crate::crypto::Code;
use crate::crypto::CODE_LENGTH;
use crate::crypto::COLOR_NUMBER;
use crate::feedback::evaluate;
use crate::feedback::feedback_of;
use crate::feedback::Feedback;
use crate::overlap::indicator;
use crate::overlap::lemma_feedback_bounds;

verus! {

/// Pairs every item of `a` with every item of `b` with
/// `itertools::Itertools::cartesian_product`: the pairs come in the order of
/// `a`, and for one item of `a` in the order of `b`.
#[verifier::external_body]
pub(crate) fn cartesian_product<T: Copy>(a: &Vec<T>, b: &Vec<T>) -> (r: Vec<(T, T)>)
    requires
        a@.len() * b@.len() <= usize::MAX,
    ensures
        r@.len() == a@.len() * b@.len(),
        forall|k: int|
            0 <= k < r@.len() ==> #[trigger] r@[k] == (a@[k / b@.len() as int], b@[k % b@.len() as int]),
{
    a.iter().copied().cartesian_product(b.iter().copied()).collect()
}

/// One answered guess: the colors of the guess and the feedback given for it.
pub type Answer = (Seq<u8>, Feedback);

/// A secret with the colors `colors` would have given every answer of `history`.
pub open spec fn consistent(colors: Seq<u8>, history: Seq<Answer>) -> bool {
    forall|k: int|
        0 <= k < history.len() ==> feedback_of(colors, (#[trigger] history[k]).0) == history[k].1
}

/// `candidates` is the set of the codes that are consistent with `history`:
/// it is not empty, holds no code twice, holds valid and consistent codes
/// only, and holds every valid code that is consistent.
pub open spec fn candidate_set(candidates: Seq<Code>, history: Seq<Answer>) -> bool {
    &&& candidates.len() > 0
    &&& candidates.no_duplicates()
    &&& forall|i: int|
        0 <= i < candidates.len() ==> (#[trigger] candidates[i]).valid() && consistent(
            candidates[i]@,
            history,
        )
    &&& forall|colors: Seq<u8>|
        #[trigger] is_code(colors) && consistent(colors, history) ==> exists|i: int|
            0 <= i < candidates.len() && (#[trigger] candidates[i])@ == colors
}

/// The candidates that would answer the guess `guess` with `feedback`.
pub open spec fn answering(feedback: Feedback, guess: Seq<u8>) -> spec_fn(Code) -> bool {
    |candidate: Code| feedback_of(candidate@, guess) == feedback
}

/// Number of candidates that would answer the guess `guess` with `feedback`.
pub open spec fn tally(candidates: Seq<Code>, guess: Seq<u8>, feedback: Feedback) -> nat {
    candidates.filter(answering(feedback, guess)).len()
}

/// `feedback` names one of the buckets that the candidates are sorted into.
pub open spec fn is_bucket(feedback: Feedback) -> bool {
    feedback.exact <= CODE_LENGTH && feedback.extra <= CODE_LENGTH
}

/// `x` comes no later than `y` when buckets are ordered by exact matches and
/// then by extra matches.
pub open spec fn precedes(x: Feedback, y: Feedback) -> bool {
    x.exact < y.exact || (x.exact == y.exact && x.extra <= y.extra)
}

/// `feedback` is the answer that leaves the player least informed: no bucket
/// holds more candidates, and among the buckets that hold as many it is the
/// one with the fewest exact matches and then the fewest extra matches.
pub open spec fn worst_case(candidates: Seq<Code>, guess: Seq<u8>, feedback: Feedback) -> bool {
    &&& is_bucket(feedback)
    &&& forall|other: Feedback|
        is_bucket(other) ==> #[trigger] tally(candidates, guess, other) < tally(
            candidates,
            guess,
            feedback,
        ) || (tally(candidates, guess, other) == tally(candidates, guess, feedback) && precedes(
            feedback,
            other,
        ))
}

/// Number of buckets in each direction: exact and extra matches run from 0 to 4.
pub const BUCKETS: usize = 5;

/// The count that a table of `BUCKETS * BUCKETS` counts holds for `feedback`.
pub open spec fn count_of(counts: Seq<usize>, feedback: Feedback) -> usize {
    counts[feedback.exact * BUCKETS + feedback.extra]
}

/// Taking one more candidate into account raises the tally of the bucket it
/// falls into and leaves the others as they are.
proof fn lemma_tally_step(candidates: Seq<Code>, guess: Seq<u8>, i: int, feedback: Feedback)
    requires
        0 <= i < candidates.len(),
    ensures
        candidates.take(i + 1).filter(answering(feedback, guess)) == if feedback_of(
            candidates[i]@,
            guess,
        ) == feedback {
            candidates.take(i).filter(answering(feedback, guess)).push(candidates[i])
        } else {
            candidates.take(i).filter(answering(feedback, guess))
        },
        tally(candidates.take(i + 1), guess, feedback) == tally(candidates.take(i), guess, feedback)
            + indicator(feedback_of(candidates[i]@, guess) == feedback),
        tally(candidates.take(i + 1), guess, feedback) <= i + 1,
{
    reveal(Seq::filter);
    assert(candidates.take(i + 1).drop_last() =~= candidates.take(i));
    candidates.take(i + 1).lemma_filter_len(answering(feedback, guess));
}

/// Filtering a sequence that holds nothing twice gives one that holds nothing twice.
proof fn lemma_filter_no_duplicates<A>(s: Seq<A>, pred: spec_fn(A) -> bool)
    requires
        s.no_duplicates(),
    ensures
        s.filter(pred).no_duplicates(),
    decreases s.len(),
{
    reveal(Seq::filter);
    if s.len() > 0 {
        let front = s.drop_last();
        lemma_filter_no_duplicates(front, pred);
        let kept = front.filter(pred);
        if pred(s.last()) {
            assert forall|i: int, j: int|
                0 <= i < kept.push(s.last()).len() && 0 <= j < kept.push(s.last()).len() && i
                    != j implies kept.push(s.last())[i] != kept.push(s.last())[j] by {
                if i < kept.len() && j < kept.len() {
                } else {
                    let k = if i < kept.len() {
                        i
                    } else {
                        j
                    };
                    assert(kept.contains(kept[k]));
                    front.lemma_filter_contains_rev(pred, kept[k]);
                    let m = choose|m: int| 0 <= m < front.len() && front[m] == kept[k];
                    assert(s[m] != s[s.len() - 1]);
                }
            }
        }
    }
}

/// Pruning a candidate set to the codes that give the chosen answer leaves the
/// candidate set of the longer history, provided some candidate gives that answer.
pub proof fn lemma_prune(candidates: Seq<Code>, history: Seq<Answer>, guess: Seq<u8>, feedback: Feedback)
    requires
        candidate_set(candidates, history),
        tally(candidates, guess, feedback) > 0,
    ensures
        candidate_set(
            candidates.filter(answering(feedback, guess)),
            history.push((guess, feedback)),
        ),
{
    let pred = answering(feedback, guess);
    let kept = candidates.filter(pred);
    let longer = history.push((guess, feedback));
    lemma_filter_no_duplicates(candidates, pred);
    assert forall|i: int| 0 <= i < kept.len() implies (#[trigger] kept[i]).valid() && consistent(
        kept[i]@,
        longer,
    ) by {
        candidates.lemma_filter_pred(pred, i);
        assert(kept.contains(kept[i]));
        candidates.lemma_filter_contains_rev(pred, kept[i]);
        let m = choose|m: int| 0 <= m < candidates.len() && candidates[m] == kept[i];
        assert(candidates[m].valid());
        assert forall|k: int| 0 <= k < longer.len() implies feedback_of(
            kept[i]@,
            (#[trigger] longer[k]).0,
        ) == longer[k].1 by {
            if k < history.len() {
                assert(longer[k] == history[k]);
            }
        }
    }
    assert forall|colors: Seq<u8>| #[trigger]
        is_code(colors) && consistent(colors, longer) implies exists|i: int|
        0 <= i < kept.len() && (#[trigger] kept[i])@ == colors by {
        assert forall|k: int| 0 <= k < history.len() implies feedback_of(
            colors,
            (#[trigger] history[k]).0,
        ) == history[k].1 by {
            assert(longer[k] == history[k]);
        }
        assert(consistent(colors, history));
        let m = choose|m: int| 0 <= m < candidates.len() && (#[trigger] candidates[m])@ == colors;
        assert(longer[history.len() as int] == (guess, feedback));
        assert(pred(candidates[m]));
        candidates.lemma_filter_contains(pred, m);
        let j = choose|j: int| 0 <= j < kept.len() && kept[j] == candidates[m];
        assert(kept[j]@ == colors);
    }
}

/// Number of valid codes: eight colors at each of four positions.
pub const CODE_COUNT: usize = 4096;

/// The colors of the valid code with the number `m`, the codes being numbered
/// in the order of their colors read as four digits to the base eight.
pub open spec fn numbered(m: int) -> Seq<u8> {
    seq![(m / 512) as u8, ((m / 64) % 8) as u8, ((m / 8) % 8) as u8, (m % 8) as u8]
}

/// The number of the valid code with the colors `colors`.
pub open spec fn number_of(colors: Seq<u8>) -> int {
    colors[0] * 512 + colors[1] * 64 + colors[2] * 8 + colors[3]
}

/// Four digits to the base eight are the digits of the number they spell.
proof fn lemma_digits(a: int, b: int, c: int, d: int)
    requires
        0 <= a < 8,
        0 <= b < 8,
        0 <= c < 8,
        0 <= d < 8,
    ensures
        0 <= a * 512 + b * 64 + c * 8 + d < CODE_COUNT,
        (a * 512 + b * 64 + c * 8 + d) / 512 == a,
        (a * 512 + b * 64 + c * 8 + d) / 64 == a * 8 + b,
        (a * 512 + b * 64 + c * 8 + d) % 64 == c * 8 + d,
        ((a * 512 + b * 64 + c * 8 + d) / 64) % 8 == b,
        ((a * 512 + b * 64 + c * 8 + d) / 8) % 8 == c,
        (a * 512 + b * 64 + c * 8 + d) % 8 == d,
{
    let m = a * 512 + b * 64 + c * 8 + d;
    lemma_fundamental_div_mod_converse(m, 512, a, b * 64 + c * 8 + d);
    lemma_fundamental_div_mod_converse(m, 64, a * 8 + b, c * 8 + d);
    lemma_fundamental_div_mod_converse(a * 8 + b, 8, a, b);
    lemma_fundamental_div_mod_converse(m, 8, a * 64 + b * 8 + c, d);
    lemma_fundamental_div_mod_converse(a * 64 + b * 8 + c, 8, a * 8 + b, c);
}

/// The code with the number `m` is a valid code and has the number `m`.
proof fn lemma_numbered(m: int)
    requires
        0 <= m < CODE_COUNT,
    ensures
        is_code(numbered(m)),
        number_of(numbered(m)) == m,
        (m / 64) / 8 == m / 512,
        (m % 64) / 8 == (m / 8) % 8,
        (m % 64) % 8 == m % 8,
        0 <= m / 64 < 64,
        0 <= m % 64 < 64,
{
    let p = m / 64;
    let q = m % 64;
    lemma_fundamental_div_mod(m, 64);
    lemma_fundamental_div_mod(p, 8);
    lemma_fundamental_div_mod(q, 8);
    let a = p / 8;
    let b = p % 8;
    let c = q / 8;
    let d = q % 8;
    assert(0 <= p < 64);
    assert(0 <= a < 8);
    assert(0 <= c < 8);
    assert(m == a * 512 + b * 64 + c * 8 + d);
    lemma_digits(a, b, c, d);
    let colors = numbered(m);
    assert(colors[0] == a && colors[1] == b && colors[2] == c && colors[3] == d);
    assert forall|i: int| 0 <= i < colors.len() implies #[trigger] colors[i] < COLOR_NUMBER by {
        if i == 0 {
        } else if i == 1 {
        } else if i == 2 {
        } else {
        }
    }
}

/// A valid code is the code with its number.
proof fn lemma_number_of(colors: Seq<u8>)
    requires
        is_code(colors),
    ensures
        0 <= number_of(colors) < CODE_COUNT,
        numbered(number_of(colors)) == colors,
{
    assert(colors[0] < 8 && colors[1] < 8 && colors[2] < 8 && colors[3] < 8);
    lemma_digits(colors[0] as int, colors[1] as int, colors[2] as int, colors[3] as int);
    assert(numbered(number_of(colors)) =~= colors);
}

/// The valid codes in the order of their numbers are the candidate set of the
/// empty history.
pub proof fn lemma_all_codes(candidates: Seq<Code>)
    requires
        candidates.len() == CODE_COUNT,
        forall|m: int| 0 <= m < CODE_COUNT ==> (#[trigger] candidates[m])@ == numbered(m),
    ensures
        candidate_set(candidates, Seq::<Answer>::empty()),
{
    let history = Seq::<Answer>::empty();
    assert forall|i: int, j: int|
        0 <= i < candidates.len() && 0 <= j < candidates.len() && i != j implies candidates[i]
        != candidates[j] by {
        lemma_numbered(i);
        lemma_numbered(j);
        assert(candidates[i]@ == numbered(i));
        assert(candidates[j]@ == numbered(j));
    }
    assert forall|i: int| 0 <= i < candidates.len() implies (#[trigger] candidates[i]).valid()
        && consistent(candidates[i]@, history) by {
        lemma_numbered(i);
    }
    assert forall|colors: Seq<u8>| #[trigger]
        is_code(colors) && consistent(colors, history) implies exists|i: int|
        0 <= i < candidates.len() && (#[trigger] candidates[i])@ == colors by {
        lemma_number_of(colors);
        assert(candidates[number_of(colors)]@ == colors);
    }
}

/// Every valid code, in the order of the codes' numbers: the eight colors are
/// paired with themselves, and the pairs with themselves.
pub fn all_codes() -> (codes: Vec<Code>)
    ensures
        codes@.len() == CODE_COUNT,
        forall|m: int| 0 <= m < CODE_COUNT ==> (#[trigger] codes@[m])@ == numbered(m),
        candidate_set(codes@, Seq::<Answer>::empty()),
{
    let mut colors: Vec<u8> = Vec::new();
    let mut c: u8 = 0;
    while c < 8
        invariant
            c <= 8,
            colors@.len() == c,
            forall|k: int| 0 <= k < c ==> colors@[k] == k,
        decreases 8 - c,
    {
        colors.push(c);
        c += 1;
    }
    let pairs = cartesian_product(&colors, &colors);
    assert(pairs@.len() == 64);
    let quadruples = cartesian_product(&pairs, &pairs);
    assert(quadruples@.len() == 4096);
    let mut codes: Vec<Code> = Vec::new();
    let mut k: usize = 0;
    while k < CODE_COUNT
        invariant
            k <= CODE_COUNT,
            quadruples@.len() == CODE_COUNT,
            pairs@.len() == 64,
            colors@.len() == 8,
            forall|m: int| 0 <= m < 8 ==> colors@[m] == m,
            forall|m: int|
                0 <= m < 64 ==> #[trigger] pairs@[m] == (
                    colors@[m / colors@.len() as int],
                    colors@[m % colors@.len() as int],
                ),
            forall|m: int|
                0 <= m < 4096 ==> #[trigger] quadruples@[m] == (
                    pairs@[m / pairs@.len() as int],
                    pairs@[m % pairs@.len() as int],
                ),
            codes@.len() == k,
            forall|m: int| 0 <= m < k ==> (#[trigger] codes@[m])@ == numbered(m),
        decreases CODE_COUNT - k,
    {
        let quadruple = quadruples[k];
        let code = Code { colors: [quadruple.0.0, quadruple.0.1, quadruple.1.0, quadruple.1.1] };
        proof {
            let m = k as int;
            lemma_numbered(m);
            let p = m / 64;
            let q = m % 64;
            assert(quadruples@[m] == (pairs@[p], pairs@[q]));
            assert(pairs@[p] == (colors@[p / 8], colors@[p % 8]));
            assert(pairs@[q] == (colors@[q / 8], colors@[q % 8]));
            assert(code@ =~= numbered(m));
        }
        codes.push(code);
        k += 1;
    }
    proof {
        lemma_all_codes(codes@);
    }
    codes
}

/// Counts, bucket by bucket, the candidates that would give each feedback to `guess`.
pub fn tallies(candidates: &Vec<Code>, guess: &Code) -> (counts: Vec<usize>)
    ensures
        counts@.len() == BUCKETS * BUCKETS,
        forall|feedback: Feedback|
            is_bucket(feedback) ==> count_of(counts@, feedback) == #[trigger] tally(
                candidates@,
                guess@,
                feedback,
            ),
{
    let mut counts: Vec<usize> = Vec::new();
    let mut b: usize = 0;
    while b < BUCKETS * BUCKETS
        invariant
            b <= BUCKETS * BUCKETS,
            counts@.len() == b,
            forall|k: int| 0 <= k < b ==> counts@[k] == 0,
        decreases BUCKETS * BUCKETS - b,
    {
        counts.push(0);
        b += 1;
    }
    assert forall|feedback: Feedback| is_bucket(feedback) implies count_of(counts@, feedback)
        == #[trigger] tally(candidates@.take(0), guess@, feedback) by {
        reveal(Seq::filter);
    }
    let mut i: usize = 0;
    while i < candidates.len()
        invariant
            i <= candidates.len(),
            counts@.len() == BUCKETS * BUCKETS,
            forall|feedback: Feedback|
                is_bucket(feedback) ==> count_of(counts@, feedback) == #[trigger] tally(
                    candidates@.take(i as int),
                    guess@,
                    feedback,
                ),
        decreases candidates.len() - i,
    {
        let feedback = evaluate(&candidates[i], guess);
        let ghost before = counts@;
        proof {
            lemma_feedback_bounds(candidates@[i as int]@, guess@);
            assert(is_bucket(feedback));
            lemma_tally_step(candidates@, guess@, i as int, feedback);
            assert(count_of(before, feedback) == tally(
                candidates@.take(i as int),
                guess@,
                feedback,
            ));
        }
        let slot = feedback.exact * BUCKETS + feedback.extra;
        counts[slot] = counts[slot] + 1;
        assert forall|other: Feedback| is_bucket(other) implies count_of(counts@, other)
            == #[trigger] tally(candidates@.take(i as int + 1), guess@, other) by {
            lemma_tally_step(candidates@, guess@, i as int, other);
            assert(count_of(before, other) == tally(candidates@.take(i as int), guess@, other));
        }
        i += 1;
    }
    assert(candidates@.take(candidates@.len() as int) =~= candidates@);
    counts
}

/// Picks the bucket with the largest count; of several such buckets the one
/// with the fewest exact matches, then the fewest extra matches.
pub fn largest_bucket(counts: &Vec<usize>) -> (best: Feedback)
    requires
        counts@.len() == BUCKETS * BUCKETS,
    ensures
        is_bucket(best),
        forall|other: Feedback|
            is_bucket(other) ==> #[trigger] count_of(counts@, other) < count_of(counts@, best) || (
            count_of(counts@, other) == count_of(counts@, best) && precedes(best, other)),
{
    let mut best = Feedback { exact: 0, extra: 0 };
    let mut exact: usize = 0;
    while exact < BUCKETS
        invariant
            exact <= BUCKETS,
            counts@.len() == BUCKETS * BUCKETS,
            is_bucket(best),
            exact == 0 ==> best == (Feedback { exact: 0, extra: 0 }),
            exact > 0 ==> best.exact < exact,
            forall|other: Feedback|
                is_bucket(other) && other.exact < exact ==> #[trigger] count_of(counts@, other)
                    < count_of(counts@, best) || (count_of(counts@, other) == count_of(
                    counts@,
                    best,
                ) && precedes(best, other)),
        decreases BUCKETS - exact,
    {
        let mut extra: usize = 0;
        while extra < BUCKETS
            invariant
                exact < BUCKETS,
                extra <= BUCKETS,
                counts@.len() == BUCKETS * BUCKETS,
                is_bucket(best),
                exact == 0 && extra == 0 ==> best == (Feedback { exact: 0, extra: 0 }),
                exact > 0 || extra > 0 ==> best.exact < exact || (best.exact == exact && best.extra
                    < extra),
                forall|other: Feedback|
                    is_bucket(other) && (other.exact < exact || (other.exact == exact && other.extra
                        < extra)) ==> #[trigger] count_of(counts@, other) < count_of(counts@, best)
                        || (count_of(counts@, other) == count_of(counts@, best) && precedes(
                        best,
                        other,
                    )),
            decreases BUCKETS - extra,
        {
            if counts[exact * BUCKETS + extra] > counts[best.exact * BUCKETS + best.extra] {
                best = Feedback { exact, extra };
            }
            extra += 1;
        }
        exact += 1;
    }
    best
}

/// The answer that leaves the player least informed about the candidates.
pub fn worst_answer(candidates: &Vec<Code>, guess: &Code) -> (answer: Feedback)
    ensures
        worst_case(candidates@, guess@, answer),
{
    let counts = tallies(candidates, guess);
    let answer = largest_bucket(&counts);
    assert forall|other: Feedback| is_bucket(other) implies #[trigger] tally(
        candidates@,
        guess@,
        other,
    ) < tally(candidates@, guess@, answer) || (tally(candidates@, guess@, other) == tally(
        candidates@,
        guess@,
        answer,
    ) && precedes(answer, other)) by {
        assert(count_of(counts@, other) == tally(candidates@, guess@, other));
        assert(count_of(counts@, answer) == tally(candidates@, guess@, answer));
    }
    answer
}

/// The candidates that would answer `guess` with `answer`, in their order.
pub fn prune(candidates: &Vec<Code>, guess: &Code, answer: Feedback) -> (kept: Vec<Code>)
    ensures
        kept@ == candidates@.filter(answering(answer, guess@)),
{
    let mut kept: Vec<Code> = Vec::new();
    let mut i: usize = 0;
    proof {
        reveal(Seq::filter);
        assert(candidates@.take(0).filter(answering(answer, guess@)) =~= Seq::<Code>::empty());
    }
    while i < candidates.len()
        invariant
            i <= candidates.len(),
            kept@ == candidates@.take(i as int).filter(answering(answer, guess@)),
        decreases candidates.len() - i,
    {
        let candidate = candidates[i];
        let feedback = evaluate(&candidate, guess);
        proof {
            lemma_tally_step(candidates@, guess@, i as int, answer);
        }
        if feedback == answer {
            kept.push(candidate);
        }
        i += 1;
    }
    assert(candidates@.take(candidates@.len() as int) =~= candidates@);
    kept
}

/// The worst-case answer is given by at least one candidate of a candidate set.
pub proof fn lemma_worst_case_is_given(
    candidates: Seq<Code>,
    history: Seq<Answer>,
    guess: Seq<u8>,
    answer: Feedback,
)
    requires
        candidate_set(candidates, history),
        guess.len() == CODE_LENGTH,
        worst_case(candidates, guess, answer),
    ensures
        tally(candidates, guess, answer) > 0,
{
    let first = feedback_of(candidates[0]@, guess);
    assert(candidates[0].valid());
    lemma_feedback_bounds(candidates[0]@, guess);
    assert(is_bucket(first));
    assert(answering(first, guess)(candidates[0]));
    candidates.lemma_filter_contains(answering(first, guess), 0);
    assert(tally(candidates, guess, first) > 0);
}

} // verus!
