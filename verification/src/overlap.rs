//! Counting what two sequences share: the positions at which they agree and
//! the values they hold in common, whatever the positions.

use vstd::prelude::*;
use vstd::multiset::Multiset;
use vstd::seq_lib::to_multiset_build;

verus! {

/// The positions below `n` at which `a` and `b` hold the same value.
pub open spec fn positions_below<A>(a: Seq<A>, b: Seq<A>, n: int) -> Set<int> {
    Set::new(|i: int| 0 <= i < n && a[i] == b[i])
}

/// Number of positions at which `a` and `b` agree ("black pegs").
pub open spec fn exact_matches<A>(a: Seq<A>, b: Seq<A>) -> nat {
    positions_below(
        a,
        b,
        if a.len() <= b.len() {
            a.len() as int
        } else {
            b.len() as int
        },
    ).len()
}

/// The positions below `n` at which `a` and `b` agree, counted one by one.
pub open spec fn matches_below<A>(a: Seq<A>, b: Seq<A>, n: int) -> nat
    decreases n,
{
    if n <= 0 {
        0
    } else {
        matches_below(a, b, n - 1) + indicator(a[n - 1] == b[n - 1])
    }
}

/// Number of times `x` occurs in `a`.
pub open spec fn occurrences<A>(a: Seq<A>, x: A) -> nat {
    a.to_multiset().count(x)
}

/// Size of the multiset intersection of `a` and `b`: the number of values the
/// two sequences share, counted with multiplicity.
pub open spec fn overlap<A>(a: Seq<A>, b: Seq<A>) -> nat {
    a.to_multiset().intersection_with(b.to_multiset()).len()
}

/// One when the condition holds, zero when it does not.
pub open spec fn indicator(c: bool) -> nat {
    if c {
        1
    } else {
        0
    }
}

/// `f` sends different values to different values.
pub open spec fn injective<A, B>(f: spec_fn(A) -> B) -> bool {
    forall|x: A, y: A| #[trigger] f(x) == #[trigger] f(y) ==> x == y
}

/// Counting the agreeing positions one by one gives the size of their set.
pub proof fn lemma_count_positions<A>(a: Seq<A>, b: Seq<A>, n: int)
    ensures
        positions_below(a, b, n).finite(),
        positions_below(a, b, n).len() == matches_below(a, b, n),
    decreases n,
{
    if n <= 0 {
        assert(positions_below(a, b, n) =~= Set::<int>::empty());
    } else {
        lemma_count_positions(a, b, n - 1);
        if a[n - 1] == b[n - 1] {
            assert(positions_below(a, b, n) =~= positions_below(a, b, n - 1).insert(n - 1));
        } else {
            assert(positions_below(a, b, n) =~= positions_below(a, b, n - 1));
        }
    }
}

/// An empty sequence holds nothing.
pub proof fn lemma_occurrences_empty<A>(a: Seq<A>, y: A)
    requires
        a.len() == 0,
    ensures
        occurrences(a, y) == 0,
{
    a.to_multiset_ensures();
    if occurrences(a, y) > 0 {
        assert(a.contains(y));
    }
}

/// Appending `x` adds one occurrence of `x` and none of any other value.
pub proof fn lemma_occurrences_push<A>(a: Seq<A>, x: A, y: A)
    ensures
        occurrences(a.push(x), y) == occurrences(a, y) + indicator(x == y),
{
    broadcast use vstd::multiset::group_multiset_axioms;
    broadcast use vstd::multiset::group_multiset_properties;

    to_multiset_build(a, x);
}

/// A sequence holds no value more often than it is long.
pub proof fn lemma_occurrences_bounded<A>(a: Seq<A>, y: A)
    ensures
        occurrences(a, y) <= a.len(),
{
    a.to_multiset_ensures();
    vstd::multiset::axiom_count_le_len(a.to_multiset(), y);
}

/// Adding `x` to one side of an intersection adds one to its size exactly when
/// the other side still holds an unmatched `x`.
pub proof fn lemma_intersection_insert<A>(m: Multiset<A>, n: Multiset<A>, x: A)
    ensures
        m.insert(x).intersection_with(n).len() == m.intersection_with(n).len() + indicator(
            m.count(x) < n.count(x),
        ),
        n.intersection_with(m.insert(x)).len() == n.intersection_with(m).len() + indicator(
            m.count(x) < n.count(x),
        ),
{
    broadcast use vstd::multiset::group_multiset_axioms;
    broadcast use vstd::multiset::group_multiset_properties;

    if m.count(x) < n.count(x) {
        assert(m.insert(x).intersection_with(n) =~= m.intersection_with(n).insert(x));
        assert(n.intersection_with(m.insert(x)) =~= n.intersection_with(m).insert(x));
    } else {
        assert(m.insert(x).intersection_with(n) =~= m.intersection_with(n));
        assert(n.intersection_with(m.insert(x)) =~= n.intersection_with(m));
    }
}

/// Appending `x` to either sequence raises the overlap by one exactly when the
/// other sequence holds more copies of `x` than the extended one did.
pub proof fn lemma_overlap_push<A>(a: Seq<A>, b: Seq<A>, x: A)
    ensures
        overlap(a.push(x), b) == overlap(a, b) + indicator(occurrences(a, x) < occurrences(b, x)),
        overlap(b, a.push(x)) == overlap(b, a) + indicator(occurrences(a, x) < occurrences(b, x)),
{
    to_multiset_build(a, x);
    lemma_intersection_insert(a.to_multiset(), b.to_multiset(), x);
}

/// Nothing overlaps with an empty sequence.
pub proof fn lemma_overlap_empty<A>(a: Seq<A>, b: Seq<A>)
    requires
        a.len() == 0 || b.len() == 0,
    ensures
        overlap(a, b) == 0,
{
    broadcast use vstd::multiset::group_multiset_axioms;
    broadcast use vstd::multiset::group_multiset_properties;

    a.to_multiset_ensures();
    b.to_multiset_ensures();
    if a.len() == 0 {
        assert(a.to_multiset() =~= Multiset::empty());
    } else {
        assert(b.to_multiset() =~= Multiset::empty());
    }
    assert(a.to_multiset().intersection_with(b.to_multiset()) =~= Multiset::empty());
}

/// The overlap never exceeds the length of either sequence.
pub proof fn lemma_overlap_bounded<A>(a: Seq<A>, b: Seq<A>)
    ensures
        overlap(a, b) <= a.len(),
        overlap(a, b) <= b.len(),
    decreases a.len() + b.len(),
{
    if a.len() == 0 || b.len() == 0 {
        lemma_overlap_empty(a, b);
    } else {
        assert(a =~= a.drop_last().push(a.last()));
        assert(b =~= b.drop_last().push(b.last()));
        lemma_overlap_push(a.drop_last(), b, a.last());
        lemma_overlap_bounded(a.drop_last(), b);
        lemma_overlap_push(b.drop_last(), a, b.last());
        lemma_overlap_bounded(a, b.drop_last());
    }
}

/// Renaming the values of a sequence one for one keeps how often each occurs.
pub proof fn lemma_map_occurrences<A, B>(a: Seq<A>, f: spec_fn(A) -> B, x: A)
    requires
        injective(f),
    ensures
        occurrences(a.map_values(f), f(x)) == occurrences(a, x),
    decreases a.len(),
{
    if a.len() == 0 {
        lemma_occurrences_empty(a, x);
        lemma_occurrences_empty(a.map_values(f), f(x));
    } else {
        let front = a.drop_last();
        assert(a =~= front.push(a.last()));
        assert(a.map_values(f) =~= front.map_values(f).push(f(a.last())));
        lemma_map_occurrences(front, f, x);
        lemma_occurrences_push(front, a.last(), x);
        lemma_occurrences_push(front.map_values(f), f(a.last()), f(x));
    }
}

/// Renaming the values of two sequences one for one keeps their overlap.
pub proof fn lemma_map_overlap<A, B>(a: Seq<A>, b: Seq<A>, f: spec_fn(A) -> B)
    requires
        injective(f),
    ensures
        overlap(a.map_values(f), b.map_values(f)) == overlap(a, b),
    decreases a.len(),
{
    if a.len() == 0 {
        lemma_overlap_empty(a, b);
        lemma_overlap_empty(a.map_values(f), b.map_values(f));
    } else {
        let front = a.drop_last();
        let x = a.last();
        assert(a =~= front.push(x));
        assert(a.map_values(f) =~= front.map_values(f).push(f(x)));
        lemma_map_overlap(front, b, f);
        lemma_overlap_push(front, b, x);
        lemma_overlap_push(front.map_values(f), b.map_values(f), f(x));
        lemma_map_occurrences(front, f, x);
        lemma_map_occurrences(b, f, x);
    }
}

/// Renaming the values of two sequences one for one keeps where they agree.
pub proof fn lemma_map_matches<A, B>(a: Seq<A>, b: Seq<A>, f: spec_fn(A) -> B)
    requires
        injective(f),
    ensures
        exact_matches(a.map_values(f), b.map_values(f)) == exact_matches(a, b),
{
    let n = if a.len() <= b.len() {
        a.len() as int
    } else {
        b.len() as int
    };
    assert(positions_below(a.map_values(f), b.map_values(f), n) =~= positions_below(a, b, n));
}

/// Positions that agree are part of the overlap: there are never more exact
/// matches than shared values.
pub proof fn lemma_matches_le_overlap<A>(a: Seq<A>, b: Seq<A>, n: int)
    requires
        0 <= n <= a.len(),
        n <= b.len(),
    ensures
        matches_below(a, b, n) <= overlap(a.take(n), b.take(n)),
    decreases n,
{
    if n > 0 {
        let a0 = a.take(n - 1);
        let b0 = b.take(n - 1);
        let x = a[n - 1];
        let y = b[n - 1];
        lemma_matches_le_overlap(a, b, n - 1);
        assert(a.take(n) =~= a0.push(x));
        assert(b.take(n) =~= b0.push(y));
        lemma_overlap_push(a0, b0.push(y), x);
        lemma_overlap_push(b0, a0, y);
        lemma_occurrences_push(b0, y, x);
    }
}

/// Of two sequences of equal length, no more positions agree than values are
/// shared, and no more values are shared than the sequences are long.
pub proof fn lemma_feedback_bounds<A>(secret: Seq<A>, guess: Seq<A>)
    requires
        secret.len() == guess.len(),
    ensures
        exact_matches(secret, guess) <= overlap(secret, guess) <= secret.len(),
{
    lemma_count_positions(secret, guess, secret.len() as int);
    lemma_matches_le_overlap(secret, guess, secret.len() as int);
    assert(secret.take(secret.len() as int) =~= secret);
    assert(guess.take(guess.len() as int) =~= guess);
    lemma_overlap_bounded(secret, guess);
}

} // verus!
