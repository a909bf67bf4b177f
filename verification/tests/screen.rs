use wordle::feedback::judge;
use wordle::keyboard::KeyboardState;
use wordle::feedback::LetterState::{G, R, X, Y};
use wordle::screen::{
    app_to_string, char_to_span, check_guess, keyboard_to_spans, word_to_spans, Action, App,
    InputMode, Key, MessageMode,
};

fn words(ws: &[&str]) -> Vec<String> {
    ws.iter().map(|w| w.to_string()).collect()
}

fn app() -> App {
    App::new(words(&["crane", "slate", "abide", "speed"]), words(&["abide", "crane"]))
}

fn type_line(a: &mut App, line: &str) -> Action {
    for c in line.chars() {
        a.on_key(Key::Char(c));
    }
    a.on_key(Key::Enter)
}

#[test]
fn new_screen_waits() {
    let a = app();
    assert_eq!(a.message_mode, MessageMode::Input);
    assert_eq!(a.input_mode, InputMode::Normal);
    assert_eq!(a.tries, 0);
    assert_eq!(app_to_string(&a), "Please input your guess");
}

#[test]
fn normal_mode_keys() {
    let mut a = app();
    assert_eq!(a.on_key(Key::Char('x')), Action::Continue);
    assert_eq!(a.input_mode, InputMode::Normal);
    assert_eq!(a.on_key(Key::Char('e')), Action::Continue);
    assert_eq!(a.input_mode, InputMode::Editing);
    a.on_key(Key::Esc);
    assert_eq!(a.on_key(Key::Char('q')), Action::Quit);
}

#[test]
fn editing_keys() {
    let mut a = app();
    a.on_key(Key::Char('e'));
    a.on_key(Key::Char('a'));
    a.on_key(Key::Char('b'));
    a.on_key(Key::Backspace);
    assert_eq!(a.input, "a");
    a.on_key(Key::Backspace);
    a.on_key(Key::Backspace);
    assert_eq!(a.input, "");
}

#[test]
fn answer_then_guesses_until_win() {
    let mut a = app();
    a.message_mode = MessageMode::Answer;
    assert_eq!(app_to_string(&a), "Please input the answer \nIf you input invalid answer, it will be random");
    a.on_key(Key::Char('e'));
    type_line(&mut a, " ABIDE ");
    assert_eq!(a.answer, "abide");
    assert_eq!(a.message_mode, MessageMode::Input);
    type_line(&mut a, "zzzzz");
    assert_eq!(a.message_mode, MessageMode::Invalid);
    assert_eq!(app_to_string(&a), "Your guess is invalid. Try again");
    type_line(&mut a, "speed");
    assert_eq!(a.message_mode, MessageMode::Valid);
    assert_eq!(a.word_state, vec![[R, R, Y, R, Y]]);
    assert_eq!(word_to_spans(0, &a), vec![('S', R), ('P', R), ('E', Y), ('E', R), ('D', Y)]);
    assert_eq!(char_to_span('d', &a), ('D', Y));
    assert_eq!(char_to_span('z', &a), ('Z', X));
    type_line(&mut a, "Abide");
    assert_eq!(a.message_mode, MessageMode::Win);
    assert_eq!(a.tries, 2);
    assert_eq!(app_to_string(&a), "You win! Wanna try again? Y/N");
    let rows = keyboard_to_spans(&a);
    assert_eq!(rows.len(), 3);
    assert_eq!(rows[0].len(), 10);
    assert_eq!(rows[1][0], ('A', G));
    assert_eq!(rows[2][6], ('M', X));
    assert_eq!(type_line(&mut a, "y"), Action::Continue);
    assert_eq!(a.message_mode, MessageMode::Answer);
    assert_eq!(a.tries, 0);
    assert!(a.your_words.is_empty());
    assert_eq!(type_line(&mut a, "n"), Action::Continue);
    assert_eq!(a.message_mode, MessageMode::Input);
    let ans = a.answer.clone();
    type_line(&mut a, &ans);
    assert_eq!(a.message_mode, MessageMode::Win);
    assert_eq!(type_line(&mut a, "n"), Action::Quit);
    assert_eq!(a.message_mode, MessageMode::Win);
}

#[test]
fn invalid_answer_is_drawn_from_final_words() {
    let mut a = app();
    a.message_mode = MessageMode::Answer;
    a.on_key(Key::Char('e'));
    type_line(&mut a, "slate");
    assert!(a.answer == "abide" || a.answer == "crane");
}

#[test]
fn six_misses_lose() {
    let mut a = app();
    a.answer = "abide".to_string();
    a.on_key(Key::Char('e'));
    for _ in 0..6 {
        type_line(&mut a, "crane");
    }
    assert_eq!(a.message_mode, MessageMode::Fail);
    assert_eq!(app_to_string(&a), "You failed. Answer:abide\n Wanna try again? Y/N");
}

#[test]
fn check_guess_sets_message() {
    let mut a = app();
    assert!(check_guess(&" Crane".to_string(), &mut a));
    assert_eq!(a.message_mode, MessageMode::Valid);
    assert!(!check_guess(&"cranes".to_string(), &mut a));
    assert_eq!(a.message_mode, MessageMode::Invalid);
    assert!(a.is_ready() == false);
}

#[test]
fn screen_keeps_guesses_colors_and_keyboard_in_step() {
    let mut a = app();
    a.answer = "abide".to_string();
    a.on_key(Key::Char('e'));
    for w in ["crane", "zzzzz", "speed", "slate"] {
        type_line(&mut a, w);
        assert_eq!(a.tries as usize, a.your_words.len());
        assert_eq!(a.your_words.len(), a.word_state.len());
        let mut kb = KeyboardState::new();
        for k in 0..a.your_words.len() {
            assert_eq!(a.word_state[k], judge(&a.your_words[k], &a.answer));
            kb.update(&a.your_words[k], &a.word_state[k]);
        }
        assert_eq!(a.keyboard.keyboard_state, kb.keyboard_state);
    }
    assert_eq!(a.tries, 3);
}
