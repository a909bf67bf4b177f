use vstd::prelude::*;
use crate::feedback::{LetterState, judge, colors};
use crate::keyboard::{KeyboardState, keyboard_after};
use crate::screen::{all_green, lower_word};
use crate::stats::GameData;
use crate::text::{words_of, trimmed, trim, lemma_trim_noop, is_white_space};

verus! {

/// One game in progress: its answer, the keyboard, the guesses so far and
/// whether the answer was found.
pub struct Round {
    pub answer: String,
    pub keyboard: KeyboardState,
    pub guesses: Vec<String>,
    pub tries: u32,
    pub won: bool,
}

impl Round {
    /// The round's invariant: one try per guess, at most six.
    pub open spec fn wf(&self) -> bool {
        &&& self.tries <= 6
        &&& self.tries == self.guesses@.len()
    }

    /// The game is over: the answer was found or six guesses were made.
    pub open spec fn over(&self) -> bool {
        self.won || self.tries == 6
    }

    /// A new game with the given answer.
    pub fn new(answer: String) -> (r: Round)
        ensures
            r.wf(),
            r.answer == answer,
            forall|k: int| 0 <= k < 26 ==> r.keyboard.keyboard_state@[k] == LetterState::X,
            r.guesses@.len() == 0,
            r.tries == 0,
            !r.won,
    {
        Round { answer, keyboard: KeyboardState::new(), guesses: Vec::new(), tries: 0, won: false }
    }

    /// Whether the game is over.
    pub fn is_over(&self) -> (r: bool)
        ensures
            r == self.over(),
            self.wf() ==> (r <==> self.won || self.guesses@.len() == 6),
    {
        self.won || self.tries == 6
    }

    /// Scores a guess of five lower case letters against the (trimmed)
    /// answer, takes the colors into the keyboard and counts the try; the
    /// game is won when all five are green.
    pub fn take_guess(&mut self, guess: String) -> (s: [LetterState; 5])
        requires
            old(self).wf(),
            !old(self).over(),
            lower_word(guess@),
            trimmed(old(self).answer@).len() >= 5,
        ensures
            final(self).wf(),
            s@ == colors(guess@, trimmed(old(self).answer@)),
            final(self).keyboard.keyboard_state@ == keyboard_after(
                old(self).keyboard.keyboard_state@,
                guess@,
                s@,
            ),
            words_of(final(self).guesses@) == words_of(old(self).guesses@).push(guess@),
            final(self).tries == old(self).tries + 1,
            final(self).won == all_green(s@),
            final(self).answer == old(self).answer,
    {
        proof {
            assert forall|k: int| 0 <= k < 5 implies !is_white_space(#[trigger] guess@[k]) by {}
            lemma_trim_noop(guess@);
        }
        let s = judge(trim(guess.as_str()), trim(self.answer.as_str()));
        self.keyboard.update(&guess, &s);
        self.guesses.push(guess);
        self.tries = self.tries + 1;
        self.won = s[0] == LetterState::G && s[1] == LetterState::G && s[2] == LetterState::G
            && s[3] == LetterState::G && s[4] == LetterState::G;
        proof {
            assert(words_of(self.guesses@) =~= words_of(old(self).guesses@).push(guess@));
        }
        s
    }

    /// Records the finished game in the statistics: a win with its number of
    /// tries, or a loss.
    pub fn record(&self, data: &mut GameData)
        requires
            self.won ==> old(data).wins() < u32::MAX && old(data).tries() + self.tries <= u32::MAX,
            !self.won ==> old(data).losses() < u32::MAX,
        ensures
            self.won ==> final(data).wins() == old(data).wins() + 1 && final(data).tries() == old(
                data,
            ).tries() + self.tries && final(data).losses() == old(data).losses(),
            !self.won ==> final(data).losses() == old(data).losses() + 1 && final(data).wins()
                == old(data).wins() && final(data).tries() == old(data).tries(),
            final(data).used() == old(data).used(),
            final(data).frequencies() == old(data).frequencies(),
    {
        if self.won {
            data.add_win();
            data.add_tries(self.tries);
        } else {
            data.add_lose();
        }
    }
}

/// A round ends when the answer is found or when the sixth guess is made,
/// and not before: a round not won goes on while fewer than six guesses
/// were made.
pub proof fn lemma_round_lasts_six_guesses(r: Round)
    requires
        r.wf(),
    ensures
        r.over() <==> r.won || r.guesses@.len() == 6,
        !r.won && r.guesses@.len() < 6 ==> !r.over(),
{
}

/// After a game the player asks for another by typing `Y` (surrounding
/// white space aside); anything else, or the end of the input, ends play.
pub fn wants_another_game(line: &str, bytes_read: usize) -> (r: bool)
    ensures
        r == (bytes_read != 0 && trimmed(line@) == seq!['Y']),
{
    if bytes_read == 0 {
        return false;
    }
    let t = trim(line);
    let r = t.unicode_len() == 1 && t.get_char(0) == 'Y';
    proof {
        if r {
            assert(t@ =~= seq!['Y']);
        }
    }
    r
}

} // verus!
