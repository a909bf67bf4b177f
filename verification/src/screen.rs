use vstd::prelude::*;
use crate::feedback::{LetterState, judge, colors};
use crate::keyboard::{KeyboardState, keyboard_after, letter_index};
use crate::text::{
    words_of, lower, upper_char, trimmed, is_ascii_letter, ascii_lowercase, trim, is_letter,
    contains_word, char_uppercase, lemma_clean_entry, lemma_lower_letters, lemma_trim_noop, lemma_trimmed_ends,
};
use crate::word_list::random_index;

verus! {

/// Whether keys go to the input box.
#[derive(PartialEq, Eq, Structural, Copy, Clone, Debug)]
pub enum InputMode {
    Normal,
    Editing,
}

/// What the message box shows, and so what the next entered line means.
#[derive(PartialEq, Eq, Structural, Copy, Clone, Debug)]
pub enum MessageMode {
    Valid,
    Invalid,
    Win,
    Fail,
    Input,
    Answer,
}

/// A key press.
pub enum Key {
    Char(char),
    Enter,
    Backspace,
    Esc,
    Other,
}

/// What the screen loop does after a key press.
#[derive(PartialEq, Eq, Structural, Copy, Clone, Debug)]
pub enum Action {
    Continue,
    Quit,
}

/// The state of the terminal screen: the line being typed, the guesses of
/// the current game with their colors, the answer and the keyboard, and
/// the word lists that guesses and answers are checked against.
pub struct App {
    pub input: String,
    pub input_mode: InputMode,
    pub your_words: Vec<String>,
    pub message_mode: MessageMode,
    pub answer: String,
    pub keyboard: KeyboardState,
    pub word_state: Vec<[LetterState; 5]>,
    pub tries: u32,
    pub acceptable: Vec<String>,
    pub final_words: Vec<String>,
}

/// An entered line is taken as a guess in these modes.
pub open spec fn guess_mode(m: MessageMode) -> bool {
    m == MessageMode::Input || m == MessageMode::Invalid || m == MessageMode::Valid
}

/// Five ASCII letters forming a word of `list`.
pub open spec fn listed_word(t: Seq<char>, list: Seq<Seq<char>>) -> bool {
    &&& t.len() == 5
    &&& forall|i: int| 0 <= i < 5 ==> is_ascii_letter(#[trigger] t[i])
    &&& list.contains(t)
}

/// The line typed in the input box as it is taken in: trimmed, lower case.
pub open spec fn entered(input: Seq<char>) -> Seq<char> {
    lower(trimmed(input))
}

/// Five lower case letters.
pub open spec fn lower_word(w: Seq<char>) -> bool {
    w.len() == 5 && forall|i: int| 0 <= i < 5 ==> 'a' <= #[trigger] w[i] && w[i] <= 'z'
}

/// The keyboard after the guesses `words`, with colors `states`, are taken
/// in one after the other, starting from a keyboard on which no letter has
/// been tried.
pub open spec fn keyboard_from(words: Seq<Seq<char>>, states: Seq<Seq<LetterState>>) -> Seq<
    LetterState,
>
    decreases words.len(),
{
    if words.len() == 0 || states.len() == 0 {
        Seq::new(26, |k: int| LetterState::X)
    } else {
        keyboard_after(
            keyboard_from(words.drop_last(), states.drop_last()),
            words.last(),
            states.last(),
        )
    }
}

impl App {
    /// The screen's invariant: the try count is the number of guesses shown
    /// and stays within six (below six while a game goes on); every guess
    /// shown is five lower case letters and has beside it its colors against
    /// the (trimmed) answer; the keyboard is what the guesses, taken in in
    /// order, made of a fresh one; no guess is shown while an answer is asked
    /// for; and every final word is five letters once trimmed.
    pub open spec fn wf(&self) -> bool {
        &&& self.tries <= 6
        &&& (self.message_mode != MessageMode::Win && self.message_mode != MessageMode::Fail)
            ==> self.tries < 6
        &&& self.tries == self.your_words@.len()
        &&& self.your_words@.len() == self.word_state@.len()
        &&& forall|i: int| 0 <= i < self.your_words@.len() ==> lower_word(#[trigger] self.your_words@[i]@)
        &&& forall|i: int|
            0 <= i < self.word_state@.len() ==> #[trigger] self.word_state@[i]@ == colors(
                self.your_words@[i]@,
                trimmed(self.answer@),
            )
        &&& self.keyboard.keyboard_state@ == keyboard_from(
            words_of(self.your_words@),
            states_of(self.word_state@),
        )
        &&& self.message_mode == MessageMode::Answer ==> self.your_words@.len() == 0
        &&& self.final_words@.len() > 0
        &&& forall|i: int| 0 <= i < self.final_words@.len() ==> trimmed(
            #[trigger] self.final_words@[i]@,
        ).len() >= 5
    }

    /// A guess can be scored: outside the guessing modes nothing is needed,
    /// in them the answer holds five letters once trimmed.
    pub open spec fn ready(&self) -> bool {
        guess_mode(self.message_mode) ==> trimmed(self.answer@).len() >= 5
    }

    /// A fresh screen: nothing typed, no guess, no answer, waiting for a guess.
    pub fn new(acceptable: Vec<String>, final_words: Vec<String>) -> (app: App)
        requires
            final_words@.len() > 0,
            forall|i: int| 0 <= i < final_words@.len() ==> trimmed(#[trigger] final_words@[i]@).len() >= 5,
        ensures
            app.wf(),
            app.input@.len() == 0,
            app.input_mode == InputMode::Normal,
            app.your_words@.len() == 0,
            app.message_mode == MessageMode::Input,
            app.answer@.len() == 0,
            forall|k: int| 0 <= k < 26 ==> app.keyboard.keyboard_state@[k] == LetterState::X,
            app.tries == 0,
            app.acceptable == acceptable,
            app.final_words == final_words,
    {
        let app = App {
            input: String::new(),
            input_mode: InputMode::Normal,
            your_words: Vec::new(),
            message_mode: MessageMode::Input,
            answer: String::new(),
            keyboard: KeyboardState::new(),
            word_state: Vec::new(),
            tries: 0,
            acceptable,
            final_words,
        };
        assert(app.keyboard.keyboard_state@ =~= keyboard_from(
            words_of(app.your_words@),
            states_of(app.word_state@),
        ));
        app
    }

    /// Whether Enter would now take a guess that cannot be scored: the
    /// typed line is an accepted word but the answer is not five letters.
    pub fn enter_unscorable(&self) -> (r: bool)
        ensures
            r == (guess_mode(self.message_mode) && listed_word(
                entered(self.input@),
                words_of(self.acceptable@),
            ) && !self.ready()),
    {
        let g = match self.message_mode {
            MessageMode::Input | MessageMode::Invalid | MessageMode::Valid => true,
            _ => false,
        };
        g && is_listed_guess(&self.input, &self.acceptable) && !self.is_ready()
    }

    /// Whether a guess can be scored now.
    pub fn is_ready(&self) -> (r: bool)
        ensures
            r == self.ready(),
    {
        match self.message_mode {
            MessageMode::Input | MessageMode::Invalid | MessageMode::Valid => {
                trim(self.answer.as_str()).unicode_len() >= 5
            },
            _ => true,
        }
    }
}

/// Whether a typed guess, once trimmed and lowered, is five ASCII letters
/// forming a word of `acceptable`.
pub fn is_listed_guess(guess: &String, acceptable: &Vec<String>) -> (ok: bool)
    ensures
        ok == listed_word(entered(guess@), words_of(acceptable@)),
{
    let g = ascii_lowercase(trim(guess.as_str()));
    let ghost t = g@;
    if g.as_str().unicode_len() != 5 {
        return false;
    }
    let mut i: usize = 0;
    while i < 5
        invariant
            0 <= i <= 5,
            t == g@,
            t == entered(guess@),
            t.len() == 5,
            forall|k: int| 0 <= k < i ==> is_ascii_letter(#[trigger] t[k]),
        decreases 5 - i,
    {
        if !is_letter(g.as_str().get_char(i)) {
            assert(!is_ascii_letter(t[i as int]));
            return false;
        }
        i += 1;
    }
    contains_word(acceptable, g.as_str())
}

/// Checks a typed guess: once trimmed and lowered it must be five ASCII
/// letters forming an accepted word. The message turns to `Valid` or
/// `Invalid` accordingly.
pub fn check_guess(guess: &String, app: &mut App) -> (ok: bool)
    ensures
        ok == listed_word(entered(guess@), words_of(old(app).acceptable@)),
        final(app).message_mode == (if ok {
            MessageMode::Valid
        } else {
            MessageMode::Invalid
        }),
        final(app).input == old(app).input,
        final(app).input_mode == old(app).input_mode,
        old(app).same_game(final(app)),
{
    let ok = is_listed_guess(guess, &app.acceptable);
    if ok {
        app.message_mode = MessageMode::Valid;
    } else {
        app.message_mode = MessageMode::Invalid;
    }
    ok
}

/// Removes the last character, when there is one, and returns it.
fn pop_char(s: &mut String) -> (r: Option<char>)
    ensures
        old(s)@.len() == 0 ==> r is None && final(s)@ == old(s)@,
        old(s)@.len() > 0 ==> r == Some(old(s)@.last()) && final(s)@ == old(s)@.drop_last(),
{
    let n = s.as_str().unicode_len();
    if n == 0 {
        return None;
    }
    let c = s.as_str().get_char(n - 1);
    let rest = String::from_str(s.as_str().substring_char(0, n - 1));
    assert(rest@ =~= s@.drop_last());
    *s = rest;
    Some(c)
}

/// The colors of each guess, as sequences.
pub open spec fn states_of(v: Seq<[LetterState; 5]>) -> Seq<Seq<LetterState>> {
    v.map_values(|a: [LetterState; 5]| a@)
}

/// All five colors are green.
pub open spec fn all_green(s: Seq<LetterState>) -> bool {
    forall|i: int| 0 <= i < 5 ==> #[trigger] s[i] == LetterState::G
}

impl App {
    /// `b` holds the same game as `a`: guesses, colors, answer, keyboard,
    /// tries and word lists.
    pub open spec fn same_game(&self, b: &App) -> bool {
        &&& b.your_words == self.your_words
        &&& b.word_state == self.word_state
        &&& b.answer == self.answer
        &&& b.keyboard == self.keyboard
        &&& b.tries == self.tries
        &&& b.acceptable == self.acceptable
        &&& b.final_words == self.final_words
    }

    /// `after` is this screen once a finished game is cleared away.
    pub open spec fn cleared(&self, after: &App) -> bool {
        &&& after.tries == 0
        &&& forall|k: int| 0 <= k < 26 ==> after.keyboard.keyboard_state@[k] == LetterState::X
        &&& after.word_state@.len() == 0
        &&& after.your_words@.len() == 0
        &&& after.answer@.len() == 0
        &&& after.acceptable == self.acceptable
        &&& after.final_words == self.final_words
    }

    /// `after` is this screen once the entered line `t` is taken as the
    /// answer: `t` itself when it is five letters forming a final word,
    /// else some final word drawn at random; guessing starts.
    pub open spec fn answer_taken(&self, after: &App, t: Seq<char>) -> bool {
        &&& after.message_mode == MessageMode::Input
        &&& listed_word(t, words_of(self.final_words@)) ==> after.answer@ == t
        &&& !listed_word(t, words_of(self.final_words@)) ==> words_of(self.final_words@).contains(
            after.answer@,
        )
        &&& after.your_words == self.your_words
        &&& after.word_state == self.word_state
        &&& after.keyboard == self.keyboard
        &&& after.tries == self.tries
        &&& after.acceptable == self.acceptable
        &&& after.final_words == self.final_words
    }

    /// `after` is this screen once the entered line `t` is taken as a
    /// guess: an accepted word is shown with its colors against the
    /// (trimmed) answer, the keyboard takes them in and the try counts; the
    /// game is won on five greens and lost on the sixth try. Any other line
    /// only turns the message to `Invalid`.
    pub open spec fn guess_taken(&self, after: &App, t: Seq<char>) -> bool {
        if listed_word(t, words_of(self.acceptable@)) {
            let c = colors(t, trimmed(self.answer@));
            &&& words_of(after.your_words@) == words_of(self.your_words@).push(t)
            &&& states_of(after.word_state@) == states_of(self.word_state@).push(c)
            &&& after.keyboard.keyboard_state@ == keyboard_after(
                self.keyboard.keyboard_state@,
                t,
                c,
            )
            &&& after.tries == self.tries + 1
            &&& after.message_mode == (if all_green(c) {
                MessageMode::Win
            } else if after.tries == 6 {
                MessageMode::Fail
            } else {
                MessageMode::Valid
            })
            &&& after.answer == self.answer
            &&& after.acceptable == self.acceptable
            &&& after.final_words == self.final_words
        } else {
            &&& after.message_mode == MessageMode::Invalid
            &&& self.same_game(after)
        }
    }

    /// Takes the typed line out of the input box, trimmed and lowered.
    fn take_input(&mut self) -> (t: String)
        ensures
            t@ == entered(old(self).input@),
            final(self).input@.len() == 0,
            final(self).input_mode == old(self).input_mode,
            final(self).message_mode == old(self).message_mode,
            old(self).same_game(final(self)),
    {
        let raw = self.input.clone();
        self.input = String::new();
        ascii_lowercase(trim(raw.as_str()))
    }

    /// After a won or lost game: clears it, and starts a new one when the
    /// player answered `y`.
    fn finish_round(&mut self, t: String) -> (r: Action)
        requires
            old(self).wf(),
        ensures
            old(self).cleared(final(self)),
            final(self).wf(),
            final(self).input == old(self).input,
            final(self).input_mode == old(self).input_mode,
            t@ == seq!['y'] ==> r == Action::Continue && final(self).message_mode
                == MessageMode::Answer,
            t@ != seq!['y'] ==> r == Action::Quit && final(self).message_mode == old(
                self,
            ).message_mode,
    {
        self.tries = 0;
        self.keyboard = KeyboardState::new();
        self.word_state = Vec::new();
        self.your_words = Vec::new();
        self.answer = String::new();
        assert(self.keyboard.keyboard_state@ =~= keyboard_from(
            words_of(self.your_words@),
            states_of(self.word_state@),
        ));
        if t.as_str().unicode_len() == 1 && t.as_str().get_char(0) == 'y' {
            assert(t@ =~= seq!['y']);
            self.message_mode = MessageMode::Answer;
            Action::Continue
        } else {
            assert(t@ != seq!['y']);
            Action::Quit
        }
    }

    /// Takes the entered line as the answer of the next game.
    fn take_answer(&mut self, t: String)
        requires
            old(self).wf(),
            old(self).message_mode == MessageMode::Answer,
        ensures
            old(self).answer_taken(final(self), t@),
            final(self).wf(),
            final(self).ready(),
            final(self).input == old(self).input,
            final(self).input_mode == old(self).input_mode,
    {
        let mut valid = t.as_str().unicode_len() == 5;
        if valid {
            let mut i: usize = 0;
            while i < 5
                invariant
                    0 <= i <= 5,
                    t@.len() == 5,
                    valid ==> forall|k: int| 0 <= k < i ==> is_ascii_letter(#[trigger] t@[k]),
                    !valid ==> exists|k: int| 0 <= k < 5 && !is_ascii_letter(#[trigger] t@[k]),
                decreases 5 - i,
            {
                if !is_letter(t.as_str().get_char(i)) {
                    assert(!is_ascii_letter(t@[i as int]));
                    valid = false;
                }
                i += 1;
            }
        }
        if valid && !contains_word(&self.final_words, t.as_str()) {
            valid = false;
        }
        assert(valid == listed_word(t@, words_of(self.final_words@)));
        if valid {
            proof {
                assert forall|k: int| 0 <= k < 5 implies !crate::text::is_white_space(#[trigger] t@[k]) by {
                    assert(is_ascii_letter(t@[k]));
                }
                lemma_trim_noop(t@);
            }
            self.answer = t;
        } else {
            let idx = random_index(self.final_words.len());
            self.answer = self.final_words[idx].clone();
            assert(words_of(self.final_words@)[idx as int] == self.answer@);
        }
        self.message_mode = MessageMode::Input;
    }

    /// Takes the entered line `t` as a guess.
    fn take_guess(&mut self, t: String)
        requires
            old(self).wf(),
            listed_word(t@, words_of(old(self).acceptable@)) ==> old(self).ready(),
            guess_mode(old(self).message_mode),
            exists|raw: Seq<char>| t@ == entered(raw),
        ensures
            old(self).guess_taken(final(self), t@),
            final(self).wf(),
            old(self).ready() ==> final(self).ready(),
            final(self).input == old(self).input,
            final(self).input_mode == old(self).input_mode,
    {
        let ghost raw = choose|raw: Seq<char>| t@ == entered(raw);
        proof {
            lemma_clean_entry(raw);
        }
        if check_guess(&t, self) {
            proof {
                lemma_lower_letters(trimmed(raw));
                lemma_trimmed_ends(self.answer@);
            }
            let word_state = judge(trim(t.as_str()), trim(self.answer.as_str()));
            self.keyboard.update(&t, &word_state);
            self.word_state.push(word_state);
            self.your_words.push(t);
            self.tries = self.tries + 1;
            let win = word_state[0] == LetterState::G && word_state[1] == LetterState::G
                && word_state[2] == LetterState::G && word_state[3] == LetterState::G
                && word_state[4] == LetterState::G;
            assert(win == all_green(word_state@));
            if win {
                self.message_mode = MessageMode::Win;
            } else if self.tries == 6 {
                self.message_mode = MessageMode::Fail;
            } else {
                self.message_mode = MessageMode::Valid;
            }
            proof {
                assert(words_of(self.your_words@) =~= words_of(old(self).your_words@).push(t@));
                assert(states_of(self.word_state@) =~= states_of(old(self).word_state@).push(word_state@));
                assert(words_of(self.your_words@).drop_last() =~= words_of(old(self).your_words@));
                assert(states_of(self.word_state@).drop_last() =~= states_of(old(self).word_state@));
                assert forall|i: int| 0 <= i < self.word_state@.len() implies #[trigger] self.word_state@[i]@
                    == colors(self.your_words@[i]@, trimmed(self.answer@)) by {
                    if i < old(self).word_state@.len() {
                        assert(self.word_state@[i] == old(self).word_state@[i]);
                        assert(self.your_words@[i] == old(self).your_words@[i]);
                    }
                }
                assert forall|i: int| 0 <= i < self.your_words@.len() implies lower_word(
                    #[trigger] self.your_words@[i]@,
                ) by {
                    if i < old(self).your_words@.len() {
                        assert(self.your_words@[i] == old(self).your_words@[i]);
                    }
                }
            }
        }
    }

    /// The effect of a key press `key` on this screen, leading to `after`
    /// with result `r`. Outside editing, `e` starts editing and `q` quits.
    /// While editing, characters are typed, Backspace erases the last one,
    /// Esc stops editing, and Enter takes the typed line (trimmed and
    /// lowered) out of the box: after a finished game it clears the game
    /// and starts another on `y` (anything else quits); when an answer is
    /// asked for it sets the answer; otherwise it is a guess.
    pub open spec fn after_key(&self, key: Key, after: &App, r: Action) -> bool {
        let unchanged_else = after.message_mode == self.message_mode && self.same_game(after);
        match self.input_mode {
            InputMode::Normal => match key {
                Key::Char('e') => r == Action::Continue && after.input_mode == InputMode::Editing
                    && after.input == self.input && unchanged_else,
                Key::Char('q') => r == Action::Quit && *after == *self,
                _ => r == Action::Continue && *after == *self,
            },
            InputMode::Editing => match key {
                Key::Char(c) => r == Action::Continue && after.input@ == self.input@.push(c)
                    && after.input_mode == InputMode::Editing && unchanged_else,
                Key::Backspace => r == Action::Continue && (self.input@.len() > 0
                    ==> after.input@ == self.input@.drop_last()) && (self.input@.len() == 0
                    ==> after.input@ == self.input@) && after.input_mode == InputMode::Editing
                    && unchanged_else,
                Key::Esc => r == Action::Continue && after.input_mode == InputMode::Normal
                    && after.input == self.input && unchanged_else,
                Key::Enter => {
                    let t = entered(self.input@);
                    &&& after.input@.len() == 0
                    &&& after.input_mode == InputMode::Editing
                    &&& match self.message_mode {
                        MessageMode::Fail | MessageMode::Win => self.cleared(after) && if t
                            == seq!['y'] {
                            r == Action::Continue && after.message_mode == MessageMode::Answer
                        } else {
                            r == Action::Quit && after.message_mode == self.message_mode
                        },
                        MessageMode::Answer => r == Action::Continue && self.answer_taken(
                            after,
                            t,
                        ),
                        _ => r == Action::Continue && self.guess_taken(after, t),
                    }
                },
                Key::Other => r == Action::Continue && *after == *self,
            },
        }
    }

    /// Handles one key press, as `after_key` describes.
    pub fn on_key(&mut self, key: Key) -> (r: Action)
        requires
            old(self).wf(),
            old(self).input_mode == InputMode::Editing && key is Enter && guess_mode(
                old(self).message_mode,
            ) && listed_word(entered(old(self).input@), words_of(old(self).acceptable@))
                ==> old(self).ready(),
        ensures
            final(self).wf(),
            old(self).ready() ==> final(self).ready(),
            old(self).after_key(key, final(self), r),
    {
        match self.input_mode {
            InputMode::Normal => match key {
                Key::Char(c) => {
                    if c == 'e' {
                        self.input_mode = InputMode::Editing;
                        Action::Continue
                    } else if c == 'q' {
                        Action::Quit
                    } else {
                        Action::Continue
                    }
                },
                _ => Action::Continue,
            },
            InputMode::Editing => match key {
                Key::Enter => {
                    let t = self.take_input();
                    match self.message_mode {
                        MessageMode::Fail | MessageMode::Win => self.finish_round(t),
                        MessageMode::Answer => {
                            self.take_answer(t);
                            Action::Continue
                        },
                        _ => {
                            self.take_guess(t);
                            Action::Continue
                        },
                    }
                },
                Key::Char(c) => {
                    push_char_to(&mut self.input, c);
                    Action::Continue
                },
                Key::Backspace => {
                    pop_char(&mut self.input);
                    Action::Continue
                },
                Key::Esc => {
                    self.input_mode = InputMode::Normal;
                    Action::Continue
                },
                Key::Other => Action::Continue,
            },
        }
    }
}

/// The text of the message box for message `m` and answer `answer`.
pub open spec fn message_text(m: MessageMode, answer: Seq<char>) -> Seq<char> {
    match m {
        MessageMode::Answer => "Please input the answer \nIf you input invalid answer, it will be random"@,
        MessageMode::Fail => "You failed. Answer:"@ + answer + "\n Wanna try again? Y/N"@,
        MessageMode::Input => "Please input your guess"@,
        MessageMode::Invalid => "Your guess is invalid. Try again"@,
        MessageMode::Valid => "Valid guess"@,
        MessageMode::Win => "You win! Wanna try again? Y/N"@,
    }
}

/// The text of the message box.
pub fn app_to_string(app: &App) -> (r: String)
    ensures
        r@ == message_text(app.message_mode, app.answer@),
{
    match app.message_mode {
        MessageMode::Answer => String::from_str(
            "Please input the answer \nIf you input invalid answer, it will be random",
        ),
        MessageMode::Fail => {
            let mut r = String::from_str("You failed. Answer:");
            r.append(app.answer.as_str());
            r.append("\n Wanna try again? Y/N");
            r
        },
        MessageMode::Input => String::from_str("Please input your guess"),
        MessageMode::Invalid => String::from_str("Your guess is invalid. Try again"),
        MessageMode::Valid => String::from_str("Valid guess"),
        MessageMode::Win => String::from_str("You win! Wanna try again? Y/N"),
    }
}

/// The colored letters shown for a guess: each of its letters in upper
/// case with its color, leaving out any letter colored `X`.
pub open spec fn lettered(w: Seq<char>, s: Seq<LetterState>, n: nat) -> Seq<(char, LetterState)>
    decreases n,
{
    if n == 0 {
        Seq::empty()
    } else {
        lettered(w, s, (n - 1) as nat) + if s[n - 1] == LetterState::X {
            Seq::<(char, LetterState)>::empty()
        } else {
            seq![(upper_char(w[n - 1]), s[n - 1])]
        }
    }
}

/// The colored letters of guess number `i` of the current game.
pub fn word_to_spans(i: usize, app: &App) -> (r: Vec<(char, LetterState)>)
    requires
        i < app.your_words@.len(),
        i < app.word_state@.len(),
        app.your_words@[i as int]@.len() <= 5,
    ensures
        r@ == lettered(app.your_words@[i as int]@, app.word_state@[i as int]@, app.your_words@[i as int]@.len()),
{
    let word = &app.your_words[i];
    let state = app.word_state[i];
    let n = word.as_str().unicode_len();
    let mut r: Vec<(char, LetterState)> = Vec::new();
    let mut k: usize = 0;
    while k < n
        invariant
            k <= n,
            n == word@.len(),
            n <= 5,
            word@ == app.your_words@[i as int]@,
            state@ == app.word_state@[i as int]@,
            r@ == lettered(word@, state@, k as nat),
        decreases n - k,
    {
        let ch = word.as_str().get_char(k);
        match state[k] {
            LetterState::X => {
                assert(r@ =~= lettered(word@, state@, (k + 1) as nat));
            },
            st => {
                let up = char_uppercase(ch);
                r.push((up, st));
                assert(r@ =~= lettered(word@, state@, (k + 1) as nat));
            },
        }
        k += 1;
    }
    r
}

/// A key cap: the letter in upper case with the best color it received.
pub open spec fn key_cap(kb: Seq<LetterState>, c: char) -> (char, LetterState) {
    (upper_char(c), kb[letter_index(c)])
}

/// The key cap of lower case letter `ch`.
pub fn char_to_span(ch: char, app: &App) -> (r: (char, LetterState))
    requires
        'a' <= ch <= 'z',
    ensures
        r == key_cap(app.keyboard.keyboard_state@, ch),
{
    let index = ((ch as u32) - ('a' as u32)) as usize;
    (char_uppercase(ch), app.keyboard.keyboard_state[index])
}

pub open spec fn top_row() -> Seq<char> {
    seq!['q', 'w', 'e', 'r', 't', 'y', 'u', 'i', 'o', 'p']
}

pub open spec fn middle_row() -> Seq<char> {
    seq!['a', 's', 'd', 'f', 'g', 'h', 'j', 'k', 'l']
}

pub open spec fn bottom_row() -> Seq<char> {
    seq!['z', 'x', 'c', 'v', 'b', 'n', 'm']
}

/// The key caps of the letters of one keyboard row.
pub open spec fn caps(kb: Seq<LetterState>, row: Seq<char>) -> Seq<(char, LetterState)> {
    row.map_values(|c: char| key_cap(kb, c))
}

fn row_caps(app: &App, row: &[char]) -> (r: Vec<(char, LetterState)>)
    requires
        forall|i: int| 0 <= i < row@.len() ==> 'a' <= #[trigger] row@[i] <= 'z',
    ensures
        r@ == caps(app.keyboard.keyboard_state@, row@),
{
    let mut r: Vec<(char, LetterState)> = Vec::new();
    let mut i: usize = 0;
    while i < row.len()
        invariant
            i <= row@.len(),
            forall|j: int| 0 <= j < row@.len() ==> 'a' <= #[trigger] row@[j] <= 'z',
            r@ == caps(app.keyboard.keyboard_state@, row@.take(i as int)),
        decreases row@.len() - i,
    {
        r.push(char_to_span(row[i], app));
        assert(caps(app.keyboard.keyboard_state@, row@.take(i + 1)) =~= caps(app.keyboard.keyboard_state@, row@.take(i as int)).push(key_cap(app.keyboard.keyboard_state@, row@[i as int])));
        i += 1;
    }
    assert(row@.take(row@.len() as int) =~= row@);
    r
}

/// The keyboard in three rows, as on a QWERTY keyboard, each key with the
/// best color its letter received.
pub fn keyboard_to_spans(app: &App) -> (r: Vec<Vec<(char, LetterState)>>)
    ensures
        r@.len() == 3,
        r@[0]@ == caps(app.keyboard.keyboard_state@, top_row()),
        r@[1]@ == caps(app.keyboard.keyboard_state@, middle_row()),
        r@[2]@ == caps(app.keyboard.keyboard_state@, bottom_row()),
{
    let top = ['q', 'w', 'e', 'r', 't', 'y', 'u', 'i', 'o', 'p'];
    let middle = ['a', 's', 'd', 'f', 'g', 'h', 'j', 'k', 'l'];
    let bottom = ['z', 'x', 'c', 'v', 'b', 'n', 'm'];
    assert(top@ =~= top_row());
    assert(middle@ =~= middle_row());
    assert(bottom@ =~= bottom_row());
    let mut r: Vec<Vec<(char, LetterState)>> = Vec::new();
    r.push(row_caps(app, top.as_slice()));
    r.push(row_caps(app, middle.as_slice()));
    r.push(row_caps(app, bottom.as_slice()));
    r
}

fn push_char_to(s: &mut String, c: char)
    ensures
        final(s)@ == old(s)@.push(c),
{
    crate::text::push_char(s, c);
}

} // verus!
