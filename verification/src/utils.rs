//! Feedback on guesses written as strings of color letters, and the
//! commitment to a code.

use vstd::prelude::*;
use crate::crypto::open;
use crate::crypto::opens;
use crate::crypto::random_salt;
use crate::crypto::Code;
use crate::crypto::CODE_LENGTH;
use crate::crypto::COLOR_NUMBER;
use crate::crypto::DIGEST_LENGTH;
use crate::feedback::count_matches;
use crate::feedback::sorted_keys;
use crate::feedback::sorted_overlap;
use crate::overlap::exact_matches;
use crate::overlap::injective;
use crate::overlap::lemma_map_matches;
use crate::overlap::lemma_map_overlap;
use crate::overlap::overlap;

verus! {

/// The letter `c` as a sorting key: its code point.
pub open spec fn char_key(c: char) -> u32 {
    c as u32
}

/// The letters of a sequence as sorting keys.
pub open spec fn char_keys(letters: Seq<char>) -> Seq<u32> {
    letters.map_values(|c: char| char_key(c))
}

/// `c` is one of the eight color letters, `a` to `h`.
pub open spec fn is_color_letter(c: char) -> bool {
    ('a' as u32) <= (c as u32) && (c as u32) < ('a' as u32) + COLOR_NUMBER
}

/// `letters` spells a code: four color letters.
pub open spec fn spells_code(letters: Seq<char>) -> bool {
    &&& letters.len() == CODE_LENGTH
    &&& forall|i: int| 0 <= i < letters.len() ==> is_color_letter(#[trigger] letters[i])
}

/// The color that the letter `c` stands for: `a` is 0, `h` is 7.
pub open spec fn color_of(c: char) -> u8 {
    (c as u32 - 'a' as u32) as u8
}

/// Different letters have different keys.
proof fn lemma_char_key_injective()
    ensures
        injective(|c: char| char_key(c)),
{
    let f = |c: char| char_key(c);
    assert forall|x: char, y: char| #[trigger] f(x) == #[trigger] f(y) implies x == y by {
        lemma_same_key_same_letter(x, y);
    }
}

/// Two letters with one key are one letter.
proof fn lemma_same_key_same_letter(x: char, y: char)
    requires
        char_key(x) == char_key(y),
    ensures
        x == y,
{
}

/// The sorting keys of the four letters of `s`.
fn keys_of(s: &String) -> (r: Vec<u32>)
    requires
        s@.len() == CODE_LENGTH,
    ensures
        r@ == char_keys(s@),
{
    let mut keys: Vec<u32> = Vec::new();
    let mut i: usize = 0;
    while i < CODE_LENGTH
        invariant
            i <= CODE_LENGTH,
            s@.len() == CODE_LENGTH,
            keys@ == char_keys(s@.take(i as int)),
        decreases CODE_LENGTH - i,
    {
        let c = s.as_str().get_char(i);
        keys.push(c as u32);
        assert(char_keys(s@.take(i as int + 1)) =~= char_keys(s@.take(i as int)).push(
            char_key(s@[i as int]),
        ));
        i += 1;
    }
    assert(s@.take(CODE_LENGTH as int) =~= s@);
    keys
}

/// Number of positions at which the four-letter strings `sa` and `sb` hold the
/// same letter.
pub fn same(sa: String, sb: String) -> (r: usize)
    requires
        sa@.len() == CODE_LENGTH,
        sb@.len() == CODE_LENGTH,
    ensures
        r == exact_matches(sa@, sb@),
        r <= CODE_LENGTH,
{
    let a = keys_of(&sa);
    let b = keys_of(&sb);
    proof {
        let f = |c: char| char_key(c);
        lemma_char_key_injective();
        lemma_map_matches(sa@, sb@, f);
    }
    count_matches(&a, &b)
}

/// Number of letters that the four-letter strings `sa` and `sb` share, counted
/// with multiplicity and whatever their positions: the size of the multiset
/// intersection of their letters.
///
/// Both strings are sorted and a dynamic program for the longest common
/// subsequence runs over the sorted letters.
pub fn common(sa: String, sb: String) -> (r: usize)
    requires
        sa@.len() == CODE_LENGTH,
        sb@.len() == CODE_LENGTH,
    ensures
        r == overlap(sa@, sb@),
        r <= CODE_LENGTH,
{
    let a_keys = keys_of(&sa);
    let b_keys = keys_of(&sb);
    let a = sorted_keys(a_keys);
    let b = sorted_keys(b_keys);
    proof {
        let f = |c: char| char_key(c);
        lemma_char_key_injective();
        lemma_map_overlap(sa@, sb@, f);
        a@.to_multiset_ensures();
        b@.to_multiset_ensures();
        a_keys@.to_multiset_ensures();
        b_keys@.to_multiset_ensures();
    }
    sorted_overlap(&a, &b)
}

/// The colors that a sequence of letters spells.
pub open spec fn spelled(letters: Seq<char>) -> Seq<u8> {
    letters.map_values(|c: char| color_of(c))
}

/// Reads a code from four color letters.
pub fn string_to_code(seq: String) -> (code: Code)
    requires
        spells_code(seq@),
    ensures
        code@ == spelled(seq@),
        code.valid(),
{
    let mut colors: [u8; CODE_LENGTH] = [0, 0, 0, 0];
    let mut i: usize = 0;
    while i < CODE_LENGTH
        invariant
            i <= CODE_LENGTH,
            spells_code(seq@),
            forall|k: int| 0 <= k < i ==> #[trigger] colors@[k] == color_of(seq@[k]),
        decreases CODE_LENGTH - i,
    {
        let c = seq.as_str().get_char(i);
        assert(is_color_letter(seq@[i as int]));
        colors[i] = (c as u32 - 'a' as u32) as u8;
        i += 1;
    }
    let code = Code { colors };
    assert(code@ =~= spelled(seq@));
    assert forall|k: int| 0 <= k < code@.len() implies #[trigger] code@[k] < COLOR_NUMBER by {
        assert(is_color_letter(seq@[k]));
    }
    code
}

/// Commits to `code`: draws a fresh salt and returns the hash of the code's
/// colors followed by the salt, then the salt.
pub fn hash(code: Code) -> (r: ([u8; DIGEST_LENGTH], [u8; DIGEST_LENGTH]))
    ensures
        opens(code@, r.1@, r.0@),
{
    let salt = random_salt();
    let hash = open(&code, &salt);
    (hash, salt)
}

} // verus!
