//! The feedback oracle: ground-truth Mastermind feedback for two codes.

use vstd::prelude::*;
use itertools::Itertools;
use crate::crypto::Code;
use crate::crypto::CODE_LENGTH;
use crate::overlap::exact_matches;
use crate::overlap::indicator;
use crate::overlap::injective;
use crate::overlap::lemma_count_positions;
use crate::overlap::lemma_feedback_bounds;
use crate::overlap::lemma_map_matches;
use crate::overlap::lemma_map_overlap;
use crate::overlap::lemma_occurrences_push;
use crate::overlap::lemma_overlap_bounded;
use crate::overlap::lemma_overlap_empty;
use crate::overlap::lemma_overlap_push;
use crate::overlap::matches_below;
use crate::overlap::occurrences;
use crate::overlap::overlap;

verus! {

/// What a host answers to a guess.
///
/// `exact` counts the positions at which secret and guess hold the same color
/// ("black pegs"). `extra` counts the further color matches that are not exact
/// ("white pegs"). Their sum, [`Feedback::total`], is the size of the multiset
/// intersection of the two codes; it is that sum, not `extra`, which the guess
/// circuit takes as its third public input.
#[derive(Clone, Copy, Debug, PartialEq, Eq, Structural)]
pub struct Feedback {
    pub exact: usize,
    pub extra: usize,
}

impl Feedback {
    /// Exact and extra matches together: the total color overlap.
    pub open spec fn spec_total(&self) -> int {
        self.exact + self.extra
    }

    /// Exact and extra matches together: the total color overlap.
    pub fn total(&self) -> (r: usize)
        requires
            self.spec_total() <= usize::MAX,
        ensures
            r == self.spec_total(),
    {
        self.exact + self.extra
    }
}

/// The feedback that the secret `secret` owes to the guess `guess`.
pub open spec fn feedback_of<A>(secret: Seq<A>, guess: Seq<A>) -> Feedback {
    Feedback {
        exact: exact_matches(secret, guess) as usize,
        extra: (overlap(secret, guess) - exact_matches(secret, guess)) as usize,
    }
}

/// `s` is in non-decreasing order.
pub open spec fn sorted(s: Seq<u32>) -> bool {
    forall|i: int, j: int| 0 <= i <= j < s.len() ==> s[i] <= s[j]
}

/// The largest of three numbers.
pub open spec fn max3(x: nat, y: nat, z: nat) -> nat {
    if x >= y && x >= z {
        x
    } else if y >= z {
        y
    } else {
        z
    }
}

/// A value that is larger than every element of a sorted prefix does not occur in it.
proof fn lemma_absent_above(a: Seq<u32>, n: int, y: u32)
    requires
        sorted(a),
        1 <= n <= a.len(),
        a[n - 1] < y,
    ensures
        occurrences(a.take(n - 1), y) == 0,
        occurrences(a.take(n), y) == 0,
{
    let p = a.take(n - 1);
    let q = a.take(n);
    p.to_multiset_ensures();
    q.to_multiset_ensures();
    if p.contains(y) {
        let k = choose|k: int| 0 <= k < p.len() && p[k] == y;
        assert(a[k] <= a[n - 1]);
    }
    if q.contains(y) {
        let k = choose|k: int| 0 <= k < q.len() && q[k] == y;
        assert(a[k] <= a[n - 1]);
    }
}

/// The recurrence behind the dynamic program: on sorted sequences the overlap
/// of two prefixes is the largest of the overlaps of the three shorter pairs of
/// prefixes, the diagonal one raised by one where the two last elements agree.
pub proof fn lemma_overlap_recurrence(a: Seq<u32>, b: Seq<u32>, i: int, j: int)
    requires
        sorted(a),
        sorted(b),
        1 <= i <= a.len(),
        1 <= j <= b.len(),
    ensures
        overlap(a.take(i), b.take(j)) == max3(
            overlap(a.take(i - 1), b.take(j)),
            overlap(a.take(i), b.take(j - 1)),
            overlap(a.take(i - 1), b.take(j - 1)) + indicator(a[i - 1] == b[j - 1]),
        ),
{
    let x = a[i - 1];
    let y = b[j - 1];
    let a0 = a.take(i - 1);
    let b0 = b.take(j - 1);
    assert(a.take(i) =~= a0.push(x));
    assert(b.take(j) =~= b0.push(y));
    lemma_overlap_push(a0, b0.push(y), x);
    lemma_overlap_push(b0, a0.push(x), y);
    lemma_overlap_push(a0, b0, x);
    lemma_overlap_push(b0, a0, y);
    lemma_occurrences_push(b0, y, x);
    lemma_occurrences_push(a0, x, y);
    if x < y {
        lemma_absent_above(a, i, y);
    } else if y < x {
        lemma_absent_above(b, j, x);
    }
}

/// Overlap of the prefixes of `a` and `b` that end at positions `p` and `q`:
/// what the dynamic program stores in row `p`, column `q` of its table.
pub open spec fn cell(a: Seq<u32>, b: Seq<u32>, p: int, q: int) -> nat {
    overlap(a.take(p + 1), b.take(q + 1))
}

/// Row `p`, column `q` of a table laid out row by row.
pub open spec fn entry(table: Seq<usize>, p: int, q: int) -> usize {
    table[p * CODE_LENGTH as int + q]
}

/// What the recurrence says of one cell, with the cells outside the table read as zero.
proof fn lemma_cell(a: Seq<u32>, b: Seq<u32>, p: int, q: int)
    requires
        sorted(a),
        sorted(b),
        0 <= p < a.len(),
        0 <= q < b.len(),
    ensures
        cell(a, b, p, q) == max3(
            if p == 0 {
                0
            } else {
                cell(a, b, p - 1, q)
            },
            if q == 0 {
                0
            } else {
                cell(a, b, p, q - 1)
            },
            if p == 0 || q == 0 {
                indicator(a[p] == b[q])
            } else {
                cell(a, b, p - 1, q - 1) + indicator(a[p] == b[q])
            },
        ),
        cell(a, b, p, q) <= p + 1,
        cell(a, b, p, q) <= q + 1,
{
    lemma_overlap_recurrence(a, b, p + 1, q + 1);
    lemma_overlap_bounded(a.take(p + 1), b.take(q + 1));
    if p == 0 {
        lemma_overlap_empty(a.take(0), b.take(q + 1));
        lemma_overlap_empty(a.take(0), b.take(q));
    }
    if q == 0 {
        lemma_overlap_empty(a.take(p + 1), b.take(0));
        lemma_overlap_empty(a.take(p), b.take(0));
    }
}

/// The larger of two numbers.
fn larger(x: usize, y: usize) -> (r: usize)
    ensures
        r >= x,
        r >= y,
        r == x || r == y,
{
    if x >= y {
        x
    } else {
        y
    }
}

/// Overlap of two sorted sequences of four keys, by the dynamic program for
/// the longest common subsequence: on sorted input its length is the size of
/// the multiset intersection.
pub fn sorted_overlap(a: &Vec<u32>, b: &Vec<u32>) -> (r: usize)
    requires
        a.len() == CODE_LENGTH,
        b.len() == CODE_LENGTH,
        sorted(a@),
        sorted(b@),
    ensures
        r == overlap(a@, b@),
        r <= CODE_LENGTH,
{
    let mut table: [usize; 16] = [0; 16];
    proof {
        lemma_cell(a@, b@, 0, 0);
    }
    if a[0] == b[0] {
        table[0] = 1;
    }
    let mut j: usize = 1;
    while j < CODE_LENGTH
        invariant
            1 <= j <= CODE_LENGTH,
            a.len() == CODE_LENGTH,
            b.len() == CODE_LENGTH,
            sorted(a@),
            sorted(b@),
            forall|q: int| 0 <= q < j ==> #[trigger] entry(table@, 0, q) == cell(a@, b@, 0, q),
        decreases CODE_LENGTH - j,
    {
        proof {
            lemma_cell(a@, b@, 0, j as int);
            lemma_cell(a@, b@, 0, j as int - 1);
            assert(entry(table@, 0, j as int - 1) == cell(a@, b@, 0, j as int - 1));
        }
        let ghost before = table@;
        table[j] = table[j - 1];
        if a[0] == b[j] {
            table[j] = 1;
        }
        assert forall|q: int| 0 <= q < j + 1 implies #[trigger] entry(table@, 0, q) == cell(
            a@,
            b@,
            0,
            q,
        ) by {
            if q < j {
                assert(entry(before, 0, q) == cell(a@, b@, 0, q));
            }
        }
        j += 1;
    }
    let mut i: usize = 1;
    while i < CODE_LENGTH
        invariant
            1 <= i <= CODE_LENGTH,
            a.len() == CODE_LENGTH,
            b.len() == CODE_LENGTH,
            sorted(a@),
            sorted(b@),
            forall|p: int, q: int|
                0 <= p < CODE_LENGTH && 0 <= q < CODE_LENGTH && (p == 0 || (q == 0 && p < i))
                    ==> #[trigger] entry(table@, p, q) == cell(a@, b@, p, q),
        decreases CODE_LENGTH - i,
    {
        proof {
            lemma_cell(a@, b@, i as int, 0);
            lemma_cell(a@, b@, i as int - 1, 0);
            assert(entry(table@, i as int - 1, 0) == cell(a@, b@, i as int - 1, 0));
        }
        let ghost before = table@;
        table[i * CODE_LENGTH] = table[(i - 1) * CODE_LENGTH];
        if a[i] == b[0] {
            table[i * CODE_LENGTH] = 1;
        }
        assert forall|p: int, q: int|
            0 <= p < CODE_LENGTH && 0 <= q < CODE_LENGTH && (p == 0 || (q == 0 && p < i + 1))
            implies #[trigger] entry(table@, p, q) == cell(a@, b@, p, q) by {
            if !(p == i && q == 0) {
                assert(entry(before, p, q) == cell(a@, b@, p, q));
            }
        }
        i += 1;
    }
    let mut i: usize = 1;
    while i < CODE_LENGTH
        invariant
            1 <= i <= CODE_LENGTH,
            a.len() == CODE_LENGTH,
            b.len() == CODE_LENGTH,
            sorted(a@),
            sorted(b@),
            forall|p: int, q: int|
                0 <= p < CODE_LENGTH && 0 <= q < CODE_LENGTH && (p < i || q == 0)
                    ==> #[trigger] entry(table@, p, q) == cell(a@, b@, p, q),
        decreases CODE_LENGTH - i,
    {
        let mut j: usize = 1;
        while j < CODE_LENGTH
            invariant
                1 <= i < CODE_LENGTH,
                1 <= j <= CODE_LENGTH,
                a.len() == CODE_LENGTH,
                b.len() == CODE_LENGTH,
                sorted(a@),
                sorted(b@),
                forall|p: int, q: int|
                    0 <= p < CODE_LENGTH && 0 <= q < CODE_LENGTH && (p < i || q == 0 || (p == i
                        && q < j)) ==> #[trigger] entry(table@, p, q) == cell(a@, b@, p, q),
            decreases CODE_LENGTH - j,
        {
            proof {
                lemma_cell(a@, b@, i as int, j as int);
                lemma_cell(a@, b@, i as int - 1, j as int - 1);
                assert(entry(table@, i as int - 1, j as int) == cell(a@, b@, i as int - 1, j as int));
                assert(entry(table@, i as int, j as int - 1) == cell(a@, b@, i as int, j as int - 1));
                assert(entry(table@, i as int - 1, j as int - 1) == cell(
                    a@,
                    b@,
                    i as int - 1,
                    j as int - 1,
                ));
            }
            let ghost before = table@;
            let diagonal = if a[i] == b[j] {
                table[(i - 1) * CODE_LENGTH + j - 1] + 1
            } else {
                table[(i - 1) * CODE_LENGTH + j - 1]
            };
            table[i * CODE_LENGTH + j] = larger(
                larger(table[(i - 1) * CODE_LENGTH + j], table[i * CODE_LENGTH + j - 1]),
                diagonal,
            );
            assert forall|p: int, q: int|
                0 <= p < CODE_LENGTH && 0 <= q < CODE_LENGTH && (p < i || q == 0 || (p == i && q
                    < j + 1)) implies #[trigger] entry(table@, p, q) == cell(a@, b@, p, q) by {
                if !(p == i && q == j) {
                    assert(entry(before, p, q) == cell(a@, b@, p, q));
                }
            }
            j += 1;
        }
        i += 1;
    }
    proof {
        assert(entry(table@, 3, 3) == cell(a@, b@, 3, 3));
        assert(a@.take(4) =~= a@);
        assert(b@.take(4) =~= b@);
        lemma_overlap_bounded(a@, b@);
    }
    table[15]
}

/// The color `c` as a sorting key.
pub open spec fn color_key(c: u8) -> u32 {
    c as u32
}

/// The colors of a code as sorting keys.
pub open spec fn color_keys(colors: Seq<u8>) -> Seq<u32> {
    colors.map_values(|c: u8| color_key(c))
}

/// Sorts keys into ascending order with `itertools::Itertools::sorted`, which
/// collects them and calls the stable `slice::sort`: the result is in
/// non-decreasing order and holds each key as often as the argument does.
#[verifier::external_body]
pub(crate) fn sorted_keys(keys: Vec<u32>) -> (r: Vec<u32>)
    ensures
        sorted(r@),
        r@.to_multiset() == keys@.to_multiset(),
{
    keys.into_iter().sorted().collect()
}

/// Number of positions at which two sequences of four keys agree.
pub fn count_matches(a: &Vec<u32>, b: &Vec<u32>) -> (r: usize)
    requires
        a.len() == CODE_LENGTH,
        b.len() == CODE_LENGTH,
    ensures
        r == exact_matches(a@, b@),
        r <= CODE_LENGTH,
{
    let mut ans: usize = 0;
    let mut i: usize = 0;
    while i < CODE_LENGTH
        invariant
            i <= CODE_LENGTH,
            a.len() == CODE_LENGTH,
            b.len() == CODE_LENGTH,
            ans == matches_below(a@, b@, i as int),
            ans <= i,
        decreases CODE_LENGTH - i,
    {
        if a[i] == b[i] {
            ans += 1;
        }
        i += 1;
    }
    proof {
        lemma_count_positions(a@, b@, CODE_LENGTH as int);
    }
    ans
}

/// The sorting keys of a code's colors.
fn keys_of(code: &Code) -> (r: Vec<u32>)
    ensures
        r@ == color_keys(code@),
{
    let mut keys: Vec<u32> = Vec::new();
    let mut i: usize = 0;
    while i < CODE_LENGTH
        invariant
            i <= CODE_LENGTH,
            keys@ == color_keys(code@.take(i as int)),
        decreases CODE_LENGTH - i,
    {
        keys.push(code.colors[i] as u32);
        assert(color_keys(code@.take(i as int + 1)) =~= color_keys(code@.take(i as int)).push(
            color_key(code@[i as int]),
        ));
        i += 1;
    }
    assert(code@.take(CODE_LENGTH as int) =~= code@);
    keys
}

/// Ground-truth feedback for `guess` against `secret`.
///
/// The exact matches are counted position by position. The total overlap is
/// found by sorting both codes and running the dynamic program of
/// [`sorted_overlap`]; the extra matches are what is left of it.
pub fn evaluate(secret: &Code, guess: &Code) -> (r: Feedback)
    ensures
        r == feedback_of(secret@, guess@),
        r.exact == exact_matches(secret@, guess@),
        r.exact + r.extra == overlap(secret@, guess@),
        r.exact + r.extra <= CODE_LENGTH,
{
    let secret_keys = keys_of(secret);
    let guess_keys = keys_of(guess);
    let exact = count_matches(&secret_keys, &guess_keys);
    let secret_sorted = sorted_keys(secret_keys);
    let guess_sorted = sorted_keys(guess_keys);
    proof {
        let f = |c: u8| color_key(c);
        assert(injective(f));
        lemma_map_overlap(secret@, guess@, f);
        lemma_map_matches(secret@, guess@, f);
        lemma_feedback_bounds(secret@, guess@);
        secret_sorted@.to_multiset_ensures();
        guess_sorted@.to_multiset_ensures();
        secret_keys@.to_multiset_ensures();
        guess_keys@.to_multiset_ensures();
    }
    let common = sorted_overlap(&secret_sorted, &guess_sorted);
    Feedback { exact, extra: common - exact }
}

} // verus!
