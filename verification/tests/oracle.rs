use zk_mastermind::crypto::Code;
use zk_mastermind::feedback::count_matches;
use zk_mastermind::feedback::evaluate;
use zk_mastermind::feedback::sorted_overlap;
use zk_mastermind::feedback::Feedback;
use zk_mastermind::utils::common;
use zk_mastermind::utils::same;
use zk_mastermind::utils::string_to_code;

fn code(s: &str) -> Code {
    string_to_code(s.to_string())
}

fn code_number(n: usize) -> Code {
    Code { colors: [(n / 512) as u8, (n / 64 % 8) as u8, (n / 8 % 8) as u8, (n % 8) as u8] }
}

fn positions_that_agree(secret: &Code, guess: &Code) -> usize {
    (0..4).filter(|&i| secret.colors[i] == guess.colors[i]).count()
}

fn shared_colors(secret: &Code, guess: &Code) -> usize {
    let mut total = 0;
    for color in 0..=255u8 {
        let in_secret = secret.colors.iter().filter(|&&c| c == color).count();
        let in_guess = guess.colors.iter().filter(|&&c| c == color).count();
        total += in_secret.min(in_guess);
    }
    total
}

#[test]
fn reversed_guess_has_only_extra_matches() {
    let feedback = evaluate(&code("abcd"), &code("dcba"));
    assert_eq!(feedback, Feedback { exact: 0, extra: 4 });
    assert_eq!(feedback.total(), 4);
    assert_eq!(same("abcd".to_string(), "dcba".to_string()), 0);
    assert_eq!(common("abcd".to_string(), "dcba".to_string()), 4);
}

#[test]
fn two_swapped_positions() {
    let feedback = evaluate(&code("abcd"), &code("abdc"));
    assert_eq!(feedback, Feedback { exact: 2, extra: 2 });
    assert_eq!(feedback.total(), 4);
    assert_eq!(same("abcd".to_string(), "abdc".to_string()), 2);
    assert_eq!(common("abcd".to_string(), "abdc".to_string()), 4);
}

#[test]
fn repeated_colors_in_guess() {
    let feedback = evaluate(&code("abcd"), &code("aabb"));
    assert_eq!(feedback, Feedback { exact: 1, extra: 1 });
    assert_eq!(feedback.total(), 2);
    assert_eq!(same("abcd".to_string(), "aabb".to_string()), 1);
    assert_eq!(common("abcd".to_string(), "aabb".to_string()), 2);
}

#[test]
fn equal_codes_match_everywhere() {
    assert_eq!(evaluate(&code("bbbb"), &code("bbbb")), Feedback { exact: 4, extra: 0 });
    assert_eq!(evaluate(&code("hgfe"), &code("hgfe")), Feedback { exact: 4, extra: 0 });
}

#[test]
fn disjoint_codes_share_nothing() {
    assert_eq!(evaluate(&code("aabb"), &code("cdef")), Feedback { exact: 0, extra: 0 });
    assert_eq!(common("aabb".to_string(), "cdef".to_string()), 0);
}

#[test]
fn repeated_colors_count_with_multiplicity() {
    assert_eq!(evaluate(&code("aaab"), &code("baaa")), Feedback { exact: 2, extra: 2 });
    assert_eq!(evaluate(&code("aabb"), &code("abab")), Feedback { exact: 2, extra: 2 });
    assert_eq!(evaluate(&code("aaaa"), &code("abcd")), Feedback { exact: 1, extra: 0 });
    assert_eq!(evaluate(&code("abcd"), &code("aaaa")), Feedback { exact: 1, extra: 0 });
}

#[test]
fn exact_matches_are_the_agreeing_positions() {
    for s in (0..4096).step_by(7) {
        for g in (0..4096).step_by(13) {
            let secret = code_number(s);
            let guess = code_number(g);
            assert_eq!(evaluate(&secret, &guess).exact, positions_that_agree(&secret, &guess));
        }
    }
}

#[test]
fn total_is_the_multiset_intersection() {
    for s in (0..4096).step_by(5) {
        for g in (0..4096).step_by(11) {
            let secret = code_number(s);
            let guess = code_number(g);
            let feedback = evaluate(&secret, &guess);
            assert_eq!(feedback.total(), shared_colors(&secret, &guess));
            assert!(feedback.total() <= 4);
        }
    }
}

#[test]
fn every_guess_against_one_secret() {
    let secret = code("cafe");
    for g in 0..4096 {
        let guess = code_number(g);
        let feedback = evaluate(&secret, &guess);
        assert_eq!(feedback.exact, positions_that_agree(&secret, &guess));
        assert_eq!(feedback.total(), shared_colors(&secret, &guess));
    }
}

#[test]
fn colors_outside_the_alphabet_are_compared_like_any_other() {
    let secret = Code { colors: [8, 200, 8, 0] };
    let guess = Code { colors: [200, 8, 9, 0] };
    assert_eq!(evaluate(&secret, &guess), Feedback { exact: 1, extra: 2 });
}

#[test]
fn dynamic_program_on_sorted_keys() {
    assert_eq!(sorted_overlap(&vec![0, 1, 2, 3], &vec![0, 1, 2, 3]), 4);
    assert_eq!(sorted_overlap(&vec![0, 0, 1, 1], &vec![0, 1, 2, 3]), 2);
    assert_eq!(sorted_overlap(&vec![0, 0, 0, 0], &vec![1, 1, 1, 1]), 0);
    assert_eq!(sorted_overlap(&vec![1, 1, 1, 5], &vec![1, 1, 5, 5]), 3);
    assert_eq!(sorted_overlap(&vec![2, 3, 4, 5], &vec![0, 1, 2, 3]), 2);
}

#[test]
fn matches_are_counted_by_position() {
    assert_eq!(count_matches(&vec![0, 1, 2, 3], &vec![3, 2, 1, 0]), 0);
    assert_eq!(count_matches(&vec![0, 1, 2, 3], &vec![0, 2, 2, 0]), 2);
    assert_eq!(count_matches(&vec![5, 5, 5, 5], &vec![5, 5, 5, 5]), 4);
}

#[test]
fn strings_of_any_letters_are_compared() {
    assert_eq!(same("wxyz".to_string(), "wzyx".to_string()), 2);
    assert_eq!(common("wxyz".to_string(), "zyxw".to_string()), 4);
    assert_eq!(common("häfé".to_string(), "éäzz".to_string()), 2);
    assert_eq!(same("häfé".to_string(), "éäzz".to_string()), 1);
}

#[test]
fn letters_spell_colors() {
    assert_eq!(code("abcd").colors, [0, 1, 2, 3]);
    assert_eq!(code("hgfe").colors, [7, 6, 5, 4]);
    assert_eq!(code("aaaa").colors, [0, 0, 0, 0]);
    assert_eq!(code("hhhh").colors, [7, 7, 7, 7]);
}

#[test]
fn codes_are_checked_on_construction() {
    assert!(Code::new([0, 7, 0, 7]).is_some());
    assert_eq!(Code::new([1, 2, 3, 4]).unwrap().colors, [1, 2, 3, 4]);
    assert!(Code::new([0, 8, 0, 0]).is_none());
    assert!(Code::new([0, 0, 0, 255]).is_none());
    assert!(Code { colors: [7, 7, 7, 7] }.is_valid());
    assert!(!Code { colors: [7, 7, 8, 7] }.is_valid());
}
