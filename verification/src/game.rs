use vstd::prelude::*;
use crate::options::{Opt, string_view};
use crate::stats::{GameData, count_in};
use crate::text::{
    words_of, lower, trimmed, is_ascii_letter, ascii_lowercase, trim, is_letter, contains_word,
    lemma_lower_idempotent,
};
use crate::word_list::{ans, random_index, seeded_shuffle, upto};
use crate::hard_mode::{check_guess_in_difficult, hard_mode_allows};

verus! {

/// What the game does next to obtain the answer.
pub enum AnswerStep {
    /// The answer is this word.
    Word(String),
    /// The word drawn at random was used before: draw again.
    DrawAgain,
    /// The answer is to be read from the player.
    ReadInput,
}

/// Takes the final word at `idx` as the answer unless it was used before;
/// a new answer is recorded as used.
pub fn pick_unused_answer(game_state: &mut GameData, final_set: &Vec<String>, idx: usize) -> (r:
    Option<String>)
    requires
        idx < final_set@.len(),
    ensures
        old(game_state).used().contains(final_set@[idx as int]@) ==> r is None
            && *final(game_state) == *old(game_state),
        !old(game_state).used().contains(final_set@[idx as int]@) ==> r is Some
            && r->0@ == final_set@[idx as int]@
            && old(game_state).with_used(final(game_state), final_set@[idx as int]@),
{
    let w = final_set[idx].clone();
    if game_state.has_used(w.as_str()) {
        None
    } else {
        game_state.push_used_answer(&w);
        Some(w)
    }
}

/// Draws at random a final word not used before and takes it as the answer,
/// recording it as used. Each index of `final_set` whose word is unused is
/// equally likely, as when indices are drawn until one with an unused word
/// comes up. A word is returned whenever some final word is unused; `None`,
/// with nothing changed, only when every final word has been used.
pub fn try_random_answer(game_state: &mut GameData, final_set: &Vec<String>) -> (r: Option<String>)
    requires
        final_set@.len() > 0,
    ensures
        r is None ==> *final(game_state) == *old(game_state),
        r is Some ==> words_of(final_set@).contains(r->0@)
            && !old(game_state).used().contains(r->0@)
            && old(game_state).with_used(final(game_state), r->0@),
        (forall|i: int| 0 <= i < final_set@.len() ==> !old(game_state).used().contains(
            #[trigger] words_of(final_set@)[i],
        )) ==> r is Some,
        (forall|i: int| 0 <= i < final_set@.len() ==> old(game_state).used().contains(
            #[trigger] words_of(final_set@)[i],
        )) ==> r is None,
        (exists|i: int| 0 <= i < final_set@.len() && !old(game_state).used().contains(
            #[trigger] words_of(final_set@)[i],
        )) ==> r is Some,
{
    let ghost words = words_of(final_set@);
    let mut unused: Vec<usize> = Vec::new();
    let mut k: usize = 0;
    while k < final_set.len()
        invariant
            k <= final_set@.len(),
            words == words_of(final_set@),
            forall|t: int| 0 <= t < unused@.len() ==> #[trigger] unused@[t] < final_set@.len()
                && !game_state.used().contains(words[unused@[t] as int]),
            unused@.len() == 0 ==> forall|j: int| 0 <= j < k ==> game_state.used().contains(
                #[trigger] words[j],
            ),
        decreases final_set@.len() - k,
    {
        assert(words[k as int] == final_set@[k as int]@);
        if !game_state.has_used(final_set[k].as_str()) {
            unused.push(k);
        }
        k += 1;
    }
    if unused.len() == 0 {
        assert(game_state.used().contains(words[0]));
        return None;
    }
    let idx = unused[random_index(unused.len())];
    let r = pick_unused_answer(game_state, final_set, idx);
    proof {
        assert(words[idx as int] == final_set@[idx as int]@);
        assert(words[idx as int] == r->0@);
    }
    r
}

/// One step towards the answer of a game on day `day`. In random mode with
/// a day, the answer is the final word at `ans(day, seed)`, the seed being 0
/// when none is set; in random mode without a day, a final word not used
/// before is drawn (or a draw again is asked for: never while no final
/// word has been used, always once all have been); otherwise the fixed word
/// is the answer, or it is to be read from the player.
pub fn get_answer_word(opt: &Opt, game_state: &mut GameData, day: usize, final_set: &Vec<
    String,
>) -> (r: AnswerStep)
    requires
        !(opt.random && opt.word is Some),
        opt.random && opt.day is Some ==> 1 <= day <= final_set@.len(),
        opt.random && opt.day is None ==> final_set@.len() > 0,
        !opt.random ==> opt.day is None && opt.seed is None,
    ensures
        opt.random && opt.day is Some ==> r is Word
            && r->Word_0@ == final_set@[seeded_shuffle(
                match opt.seed {
                    Some(s) => s,
                    None => 0,
                },
                upto(final_set@.len() as usize),
            )[day - 1] as int]@
            && *final(game_state) == *old(game_state),
        opt.random && opt.day is None ==> (r is DrawAgain && *final(game_state) == *old(game_state))
            || (r is Word && words_of(final_set@).contains(r->Word_0@)
                && !old(game_state).used().contains(r->Word_0@)
                && old(game_state).with_used(final(game_state), r->Word_0@)),
        opt.random && opt.day is None && (forall|i: int| 0 <= i < final_set@.len() ==> !old(
            game_state,
        ).used().contains(#[trigger] words_of(final_set@)[i])) ==> r is Word,
        opt.random && opt.day is None && (forall|i: int| 0 <= i < final_set@.len() ==> old(
            game_state,
        ).used().contains(#[trigger] words_of(final_set@)[i])) ==> r is DrawAgain,
        opt.random && opt.day is None && (exists|i: int| 0 <= i < final_set@.len() && !old(
            game_state,
        ).used().contains(#[trigger] words_of(final_set@)[i])) ==> r is Word,
        !opt.random ==> *final(game_state) == *old(game_state) && match opt.word {
            Some(w) => r is Word && r->Word_0@ == w@,
            None => r is ReadInput,
        },
{
    if opt.random {
        if opt.day.is_some() {
            let seed = match opt.seed {
                Some(s) => s,
                None => 0,
            };
            let idx = ans(day, seed, final_set);
            return AnswerStep::Word(final_set[idx].clone());
        }
        match try_random_answer(game_state, final_set) {
            Some(w) => AnswerStep::Word(w),
            None => AnswerStep::DrawAgain,
        }
    } else {
        match &opt.word {
            Some(w) => AnswerStep::Word(w.clone()),
            None => AnswerStep::ReadInput,
        }
    }
}

/// The guess a typed line stands for: trimmed and in lower case.
pub open spec fn guess_of(line: Seq<char>) -> Seq<char> {
    lower(trimmed(line))
}

/// A typed line is a valid guess: five ASCII letters once trimmed and
/// lowered, an accepted word, and in hard mode (after a first guess) a
/// legal follow-up of the previous guess.
pub open spec fn valid_guess(
    difficult: bool,
    last_word: Option<Seq<char>>,
    answer: Seq<char>,
    acceptable: Seq<Seq<char>>,
    line: Seq<char>,
) -> bool {
    let g = guess_of(line);
    &&& g.len() == 5
    &&& forall|i: int| 0 <= i < 5 ==> is_ascii_letter(#[trigger] g[i])
    &&& acceptable.contains(g)
    &&& (difficult && last_word is Some) ==> hard_mode_allows(g, last_word->0, answer)
}

/// Takes in one typed line as a guess. A valid guess comes back trimmed
/// and in lower case, and is counted in the word frequencies; for any other
/// line `None` comes back and nothing changes.
pub fn input_guess(
    opt: &Opt,
    last_word: &Option<String>,
    answer: &String,
    game_data: &mut GameData,
    acceptable_set: &Vec<String>,
    line: &str,
) -> (r: Option<String>)
    requires
        old(game_data).wf(),
        count_in(old(game_data).frequencies(), guess_of(line@)) < u32::MAX,
        opt.difficult && last_word is Some ==> last_word->0@.len() >= 5 && answer@.len() >= 5,
    ensures
        (r is Some) == valid_guess(
            opt.difficult,
            string_view(*last_word),
            answer@,
            words_of(acceptable_set@),
            line@,
        ),
        r is Some ==> r->0@ == guess_of(line@) && old(game_data).with_guess(final(game_data), guess_of(line@)),
        r is None ==> *final(game_data) == *old(game_data),
{
    let guess = ascii_lowercase(trim(line));
    let ghost g = guess@;
    if guess.as_str().unicode_len() != 5 {
        return None;
    }
    let mut i: usize = 0;
    while i < 5
        invariant
            0 <= i <= 5,
            g == guess@,
            g == guess_of(line@),
            g.len() == 5,
            forall|k: int| 0 <= k < i ==> is_ascii_letter(#[trigger] g[k]),
        decreases 5 - i,
    {
        if !is_letter(guess.as_str().get_char(i)) {
            assert(!is_ascii_letter(g[i as int]));
            return None;
        }
        i += 1;
    }
    if !contains_word(acceptable_set, guess.as_str()) {
        return None;
    }
    if opt.difficult {
        match last_word {
            Some(last) => {
                if !check_guess_in_difficult(&guess, last, answer) {
                    return None;
                }
            },
            None => {},
        }
    }
    proof {
        lemma_lower_idempotent(trimmed(line@));
    }
    game_data.insert_word_frequency(&guess);
    Some(guess)
}

} // verus!
