use wordle::feedback::LetterState::{G, R, Y};
use wordle::game::{get_answer_word, input_guess, pick_unused_answer, AnswerStep};
use wordle::options::{config_values, parse_config, parse_config_text, ConfigValues, Opt};
use wordle::record::{Game, State};
use wordle::round::{wants_another_game, Round};
use wordle::stats::GameData;
use wordle::word_list::{add_word_line, ans, load_word_list};

fn words(ws: &[&str]) -> Vec<String> {
    ws.iter().map(|w| w.to_string()).collect()
}

fn opt() -> Opt {
    Opt {
        word: None,
        random: false,
        difficult: false,
        stats: false,
        seed: None,
        day: None,
        final_set: None,
        acceptable_set: None,
        state: None,
        config: None,
        hint: false,
        calculate: false,
    }
}

#[test]
fn game_data_counters() {
    let mut d = GameData::new();
    d.add_win();
    d.add_win();
    d.add_lose();
    d.add_tries(7);
    assert_eq!(d.get_win(), 2);
    assert_eq!(d.get_lose(), 1);
    assert_eq!(d.get_tries(), 7);
}

#[test]
fn word_frequencies_sorted_and_lowered() {
    let mut d = GameData::new();
    d.insert_word_frequency(&"CRANE".to_string());
    d.insert_word_frequency(&"apple".to_string());
    d.insert_word_frequency(&"crane".to_string());
    d.insert_word_frequency(&"Berry".to_string());
    assert_eq!(
        d.get_words_frequency(),
        vec![("apple".to_string(), 1), ("berry".to_string(), 1), ("crane".to_string(), 2)]
    );
}

#[test]
fn top_words_by_count_then_word() {
    let mut d = GameData::new();
    for w in ["zesty", "zesty", "apple", "mango", "mango", "berry", "kiwis", "lemon", "grape"] {
        d.insert_word_frequency(&w.to_string());
    }
    assert_eq!(
        d.top_words(),
        vec![
            ("mango".to_string(), 2),
            ("zesty".to_string(), 2),
            ("apple".to_string(), 1),
            ("berry".to_string(), 1),
            ("grape".to_string(), 1),
        ]
    );
    let mut e = GameData::new();
    e.insert_word_frequency(&"crane".to_string());
    assert_eq!(e.top_words(), vec![("crane".to_string(), 1)]);
    assert_eq!(GameData::new().top_words(), vec![]);
}

#[test]
fn used_answers_are_recorded() {
    let mut d = GameData::new();
    let finals = words(&["crane", "slate"]);
    assert_eq!(pick_unused_answer(&mut d, &finals, 1), Some("slate".to_string()));
    assert_eq!(pick_unused_answer(&mut d, &finals, 1), None);
    assert!(d.has_used("slate"));
    assert!(!d.has_used("crane"));
    assert_eq!(*d.used_answer(), vec!["slate".to_string()]);
}

#[test]
fn word_list_lines_sorted_and_checked() {
    let allowed = words(&["apple", "berry", "crane", "mango"]);
    let mut list: Vec<String> = Vec::new();
    assert!(add_word_line(&mut list, "mango".to_string(), &allowed));
    assert!(add_word_line(&mut list, "apple".to_string(), &allowed));
    assert!(add_word_line(&mut list, "crane".to_string(), &allowed));
    assert_eq!(list, words(&["apple", "crane", "mango"]));
    assert!(!add_word_line(&mut list, "crane".to_string(), &allowed));
    assert!(!add_word_line(&mut list, "zesty".to_string(), &allowed));
    assert!(!add_word_line(&mut list, "berr1".to_string(), &allowed));
    assert!(!add_word_line(&mut list, "berries".to_string(), &allowed));
    assert!(!add_word_line(&mut list, "berry ".to_string(), &allowed));
    assert_eq!(list, words(&["apple", "crane", "mango"]));
}

#[test]
fn day_answers_are_a_permutation() {
    let finals = words(&["aaaaa", "bbbbb", "ccccc", "ddddd", "eeeee", "fffff"]);
    let mut seen: Vec<usize> = (1..=finals.len()).map(|d| ans(d, 7, &finals)).collect();
    assert_eq!(ans(3, 7, &finals), seen[2]);
    seen.sort();
    assert_eq!(seen, vec![0, 1, 2, 3, 4, 5]);
}

#[test]
fn answer_from_options() {
    let mut d = GameData::new();
    let finals = words(&["crane", "slate"]);
    let mut o = opt();
    o.word = Some("crane".to_string());
    match get_answer_word(&o, &mut d, 1, &finals) {
        AnswerStep::Word(w) => assert_eq!(w, "crane"),
        _ => panic!("expected a word"),
    }
    o.word = None;
    assert!(matches!(get_answer_word(&o, &mut d, 1, &finals), AnswerStep::ReadInput));
    o.random = true;
    o.day = Some(2);
    o.seed = Some(5);
    let w = match get_answer_word(&o, &mut d, 2, &finals) {
        AnswerStep::Word(w) => w,
        _ => panic!("expected a word"),
    };
    assert_eq!(w, finals[ans(2, 5, &finals)]);
    o.day = None;
    match get_answer_word(&o, &mut d, 1, &finals) {
        AnswerStep::Word(w) => assert!(finals.contains(&w) && d.has_used(&w)),
        AnswerStep::DrawAgain => panic!("nothing was used yet"),
        AnswerStep::ReadInput => panic!("random mode"),
    }
}

#[test]
fn typed_guesses_are_checked() {
    let mut d = GameData::new();
    let acceptable = words(&["crane", "ideal", "speed", "abide"]);
    let answer = "abide".to_string();
    let mut o = opt();
    assert_eq!(
        input_guess(&o, &None, &answer, &mut d, &acceptable, "  CRANE \n"),
        Some("crane".to_string())
    );
    assert_eq!(input_guess(&o, &None, &answer, &mut d, &acceptable, "cran"), None);
    assert_eq!(input_guess(&o, &None, &answer, &mut d, &acceptable, "zesty"), None);
    assert_eq!(input_guess(&o, &None, &answer, &mut d, &acceptable, "cr4ne"), None);
    o.difficult = true;
    let last = Some("speed".to_string());
    assert_eq!(input_guess(&o, &last, &answer, &mut d, &acceptable, "crane"), None);
    assert_eq!(
        input_guess(&o, &last, &answer, &mut d, &acceptable, "ideal"),
        Some("ideal".to_string())
    );
    assert_eq!(
        d.get_words_frequency(),
        vec![("crane".to_string(), 1), ("ideal".to_string(), 1)]
    );
}

#[test]
fn config_fills_missing_settings() {
    let mut o = opt();
    o.word = Some("crane".to_string());
    o.hint = true;
    let c = ConfigValues {
        word: Some("slate".to_string()),
        random: Some(true),
        difficult: None,
        stats: Some(false),
        seed: Some(9),
        day: Some(-1),
        final_set: Some("final.txt".to_string()),
        acceptable_set: None,
        state: Some("state.json".to_string()),
    };
    let r = parse_config(&Some("config.json".to_string()), &o, &c);
    assert_eq!(r.word, Some("crane".to_string()));
    assert!(r.random);
    assert!(!r.difficult);
    assert!(!r.stats);
    assert_eq!(r.seed, Some(9));
    assert_eq!(r.day, Some(usize::MAX));
    assert_eq!(r.final_set, Some("final.txt".to_string()));
    assert_eq!(r.acceptable_set, None);
    assert_eq!(r.state, Some("state.json".to_string()));
    assert_eq!(r.config, Some("config.json".to_string()));
    assert!(r.hint);
}

#[test]
fn saved_games_upper_case_and_count() {
    let mut s = State { total_rounds: None, games: None };
    s.add_game(Game::new("crane".to_string(), words(&["slate", "crane"])));
    s.add_game(Game::new("abide".to_string(), words(&["speed"])));
    assert_eq!(s.total_rounds, Some(2));
    let games = s.games.as_ref().unwrap();
    assert_eq!(games.len(), 2);
    assert_eq!(games[0].answer, "CRANE");
    assert_eq!(games[0].guesses, words(&["SLATE", "CRANE"]));
    let mut d = GameData::new();
    s.tally(&mut d);
    assert_eq!(d.get_win(), 1);
    assert_eq!(d.get_lose(), 1);
    assert_eq!(d.get_tries(), 2);
    assert_eq!(*d.used_answer(), words(&["CRANE", "ABIDE"]));
    assert_eq!(
        d.get_words_frequency(),
        vec![("crane".to_string(), 1), ("slate".to_string(), 1), ("speed".to_string(), 1)]
    );
}

#[test]
fn no_saved_games_change_nothing() {
    let s = State { total_rounds: None, games: None };
    let mut d = GameData::new();
    s.tally(&mut d);
    assert_eq!(d.get_win() + d.get_lose(), 0);
}

#[test]
fn a_round_is_won_or_lost() {
    let mut r = Round::new("abide\n".to_string());
    assert_eq!(r.take_guess("speed".to_string()), [R, R, Y, R, Y]);
    assert!(!r.is_over());
    assert_eq!(r.take_guess("abide".to_string()), [G, G, G, G, G]);
    assert!(r.is_over() && r.won);
    let mut d = GameData::new();
    r.record(&mut d);
    assert_eq!((d.get_win(), d.get_lose(), d.get_tries()), (1, 0, 2));

    let mut r = Round::new("abide".to_string());
    for _ in 0..6 {
        r.take_guess("speed".to_string());
    }
    assert!(r.is_over() && !r.won);
    r.record(&mut d);
    assert_eq!((d.get_win(), d.get_lose(), d.get_tries()), (1, 1, 2));
}

#[test]
fn another_game_on_y_only() {
    assert!(wants_another_game("Y\n", 2));
    assert!(!wants_another_game("N\n", 2));
    assert!(!wants_another_game("\n", 1));
    assert!(!wants_another_game("", 0));
    assert!(!wants_another_game("y\n", 2));
}

#[test]
fn day_answers_are_shuffled() {
    let finals = words(&["aaaaa", "bbbbb", "ccccc", "ddddd", "eeeee", "fffff", "ggggg", "hhhhh"]);
    let order: Vec<usize> = (1..=finals.len()).map(|d| ans(d, 0, &finals)).collect();
    let order2: Vec<usize> = (1..=finals.len()).map(|d| ans(d, 1, &finals)).collect();
    assert!(order != (0..finals.len()).collect::<Vec<usize>>() || order2 != (0..finals.len()).collect::<Vec<usize>>());
}

#[test]
fn whole_word_list_is_sorted_or_refused() {
    let allowed = words(&["apple", "berry", "crane", "mango"]);
    assert_eq!(
        load_word_list(&words(&["mango", "apple", "crane"]), &allowed),
        Some(words(&["apple", "crane", "mango"]))
    );
    assert_eq!(load_word_list(&words(&[]), &allowed), Some(words(&[])));
    assert_eq!(load_word_list(&words(&["apple", "crane", "apple"]), &allowed), None);
    assert_eq!(load_word_list(&words(&["apple", "zesty"]), &allowed), None);
    assert_eq!(load_word_list(&words(&["apple", "berries"]), &words(&["apple", "berries"])), None);
}

#[test]
fn config_text_is_read_by_kind() {
    let mut o = opt();
    o.stats = true;
    let text = r#"{"word": "slate", "random": true, "difficult": "yes", "seed": 7,
        "day": 3, "state": 1, "final_set": "final.txt"}"#;
    let r = parse_config_text(&Some("c.json".to_string()), &o, text).unwrap();
    assert_eq!(r.word, Some("slate".to_string()));
    assert!(r.random);
    assert!(!r.difficult);
    assert!(r.stats);
    assert_eq!(r.seed, Some(7));
    assert_eq!(r.day, Some(3));
    assert_eq!(r.state, None);
    assert_eq!(r.final_set, Some("final.txt".to_string()));
    assert_eq!(r.acceptable_set, None);
    assert_eq!(r.config, Some("c.json".to_string()));
    assert!(parse_config_text(&Some("c.json".to_string()), &o, "{\"word\": ").is_none());
    let c = config_values(r#"{"seed": -2, "day": -2}"#).unwrap();
    assert_eq!(c.seed, None);
    assert_eq!(c.day, Some(-2));
    let c = config_values("[1, 2]").unwrap();
    assert_eq!(c.word, None);
    assert_eq!(c.random, None);
}
