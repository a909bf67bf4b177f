use wordle::feedback::{judge, LetterState};
use wordle::feedback::LetterState::{G, R, X, Y};
use wordle::hard_mode::check_guess_in_difficult;
use wordle::keyboard::KeyboardState;
use wordle::text::{ascii_lowercase, ascii_uppercase, char_lowercase, char_uppercase, trim};
use wordle::solver::{filter, parse_feedback, pattern_counts, state_index};

fn words(ws: &[&str]) -> Vec<String> {
    ws.iter().map(|w| w.to_string()).collect()
}

#[test]
fn judge_exact_guess_is_all_green() {
    assert_eq!(judge("crane", "crane"), [G, G, G, G, G]);
}

#[test]
fn judge_repeated_letter_only_as_often_as_in_answer() {
    assert_eq!(judge("speed", "abide"), [R, R, Y, R, Y]);
}

#[test]
fn judge_yellows_served_left_to_right() {
    assert_eq!(judge("aabbb", "bxaaa"), [Y, Y, Y, R, R]);
}

#[test]
fn judge_green_takes_the_copy_first() {
    assert_eq!(judge("eerie", "there"), [Y, R, Y, R, G]);
}

#[test]
fn judge_looks_at_first_five_letters_only() {
    assert_eq!(judge("crane", "crane\n"), [G, G, G, G, G]);
}

#[test]
fn letter_states_are_ordered() {
    assert!(X < R && R < Y && Y < G);
    assert_eq!(G.rank(), 3);
    assert_eq!(X.rank(), 0);
}

#[test]
fn keyboard_starts_untried() {
    let kb = KeyboardState::new();
    assert_eq!(kb.to_string(), "X".repeat(26));
}

#[test]
fn keyboard_keeps_best_color() {
    let mut kb = KeyboardState::new();
    kb.update(&"speed".to_string(), &[R, R, Y, R, Y]);
    let s = kb.to_string();
    assert_eq!(&s[3..5], "YY");
    assert_eq!(&s[15..16], "R");
    assert_eq!(&s[18..19], "R");
    kb.update(&"abide".to_string(), &[G, G, G, G, G]);
    let s = kb.to_string();
    assert_eq!(&s[0..5], "GGXGG");
    kb.update(&"speed".to_string(), &[R, R, Y, R, Y]);
    assert_eq!(kb.to_string(), s);
}

#[test]
fn hard_mode_needs_yellows_again() {
    let answer = "abide".to_string();
    let last = "speed".to_string();
    assert!(check_guess_in_difficult(&"ideal".to_string(), &last, &answer));
    assert!(!check_guess_in_difficult(&"crane".to_string(), &last, &answer));
}

#[test]
fn hard_mode_needs_greens_in_place() {
    let answer = "crane".to_string();
    let last = "crate".to_string();
    assert!(!check_guess_in_difficult(&"crank".to_string(), &last, &answer));
    assert!(check_guess_in_difficult(&"crane".to_string(), &last, &answer));
}

#[test]
fn hard_mode_allows_answer_and_repeat() {
    let answer = "abide".to_string();
    let last = "speed".to_string();
    assert!(check_guess_in_difficult(&answer, &last, &answer));
    assert!(check_guess_in_difficult(&last, &last, &answer));
}

#[test]
fn filter_keeps_consistent_words() {
    let set = words(&["abide", "speed", "ideal", "aside"]);
    let all: Vec<usize> = (0..set.len()).collect();
    let state = judge("speed", "abide");
    assert_eq!(filter("speed", &state, &set, &all), vec![0]);
}

#[test]
fn filter_keeps_order_and_answer() {
    let set = words(&["crane", "crate", "trace", "react", "caret"]);
    let all: Vec<usize> = (0..set.len()).collect();
    let state = judge("crane", "crate");
    let kept = filter("crane", &state, &set, &all);
    assert!(kept.contains(&1));
    assert_eq!(kept, vec![1]);
    let state = judge("trace", "caret");
    let kept = filter("trace", &state, &set, &all);
    assert!(kept.contains(&4));
}

#[test]
fn filter_ignores_unlisted_indices() {
    let set = words(&["crane", "crate", "trace"]);
    let state = judge("crane", "crate");
    assert_eq!(filter("crane", &state, &set, &vec![0, 2]), Vec::<usize>::new());
}

#[test]
fn buckets_of_colorings() {
    assert_eq!(state_index(&[R, R, R, R, R]), 0);
    assert_eq!(state_index(&[G, G, G, G, G]), 242);
    assert_eq!(state_index(&[R, R, R, R, Y]), 1);
    assert_eq!(state_index(&[Y, R, R, R, R]), 81);
}

#[test]
fn pattern_counts_sum_to_candidates() {
    let set = words(&["crane", "crate", "trace", "abide"]);
    let all: Vec<usize> = (0..set.len()).collect();
    let counts = pattern_counts(&"crane".to_string(), &set, &all);
    assert_eq!(counts.len(), 243);
    assert_eq!(counts.iter().sum::<u64>(), 4);
    assert_eq!(counts[242], 1);
    assert_eq!(counts[state_index(&judge("crane", "crate"))], 1);
}

#[test]
fn parse_typed_feedback() {
    assert_eq!(parse_feedback("yrgyr\n"), Some([Y, R, G, Y, R]));
    assert_eq!(parse_feedback(" GG "), Some([G, G, X, X, X]));
    assert_eq!(parse_feedback("GGXYY"), None);
    assert_eq!(parse_feedback("GGGGGG"), None);
}

#[test]
fn letter_state_debug_names() {
    let s: Vec<String> = [X, R, Y, G].iter().map(|l: &LetterState| format!("{:?}", l)).collect();
    assert_eq!(s, vec!["X", "R", "Y", "G"]);
}

#[test]
fn keyboard_order_of_guesses_does_not_matter() {
    let mut a = KeyboardState::new();
    a.update(&"speed".to_string(), &judge("speed", "abide"));
    a.update(&"crane".to_string(), &judge("crane", "abide"));
    let mut b = KeyboardState::new();
    b.update(&"crane".to_string(), &judge("crane", "abide"));
    b.update(&"speed".to_string(), &judge("speed", "abide"));
    assert_eq!(a.to_string(), b.to_string());
    assert_eq!(&a.to_string()[4..5], "G");
    assert_eq!(&a.to_string()[0..1], "Y");
}

#[test]
fn judge_all_green_only_for_the_answer() {
    assert_ne!(judge("crate", "crane"), [G, G, G, G, G]);
    assert_eq!(judge("CRANE", "crane"), [R, R, R, R, R]);
}

fn greens_and_shared(s: [LetterState; 5]) -> (usize, usize) {
    (s.iter().filter(|c| **c == G).count(), s.iter().filter(|c| **c != R).count())
}

#[test]
fn judge_swapped_keeps_greens_and_shared_letters() {
    for (a, b) in [("speed", "abide"), ("aabbb", "bxaaa"), ("eerie", "there"), ("crane", "nacre"), ("llama", "hello")] {
        assert_eq!(greens_and_shared(judge(a, b)), greens_and_shared(judge(b, a)));
    }
    assert_eq!(greens_and_shared(judge("eerie", "there")), (1, 3));
}

#[test]
fn ascii_case_conversions() {
    assert_eq!(ascii_lowercase("AbC-Ü z"), "abc-Ü z");
    assert_eq!(ascii_uppercase("aBc-ü Z"), "ABC-ü Z");
    assert_eq!(char_uppercase('q'), 'Q');
    assert_eq!(char_uppercase('é'), 'é');
    assert_eq!(char_lowercase('Q'), 'q');
    assert_eq!(char_lowercase('['), '[');
}

#[test]
fn filter_on_real_feedback_keeps_same_coloring() {
    let list = words(&["abide", "speed", "crane", "eerie", "there", "slate", "nacre", "caner"]);
    let all: Vec<usize> = (0..list.len()).chain([2, 0]).collect();
    for guess in ["crane", "eerie", "speed"] {
        for answer in &list {
            let fb = judge(guess, answer);
            let expected: Vec<usize> =
                all.iter().copied().filter(|i| judge(guess, &list[*i]) == fb).collect();
            assert_eq!(filter(guess, &fb, &list, &all), expected);
        }
    }
}

#[test]
fn trim_strips_unicode_white_space() {
    assert_eq!(trim("\u{3000} abc \t\n"), "abc");
    assert_eq!(trim(" \u{85}\u{a0} "), "");
    assert_eq!(trim("a b"), "a b");
    assert_eq!(trim(""), "");
    assert_eq!(trim("\u{200b}x"), "\u{200b}x");
}
