use vstd::prelude::*;
use crate::feedback::ind;
use crate::stats::{GameData, count_in};
use crate::text::{words_of, lower, upper, ascii_uppercase, lemma_lower_idempotent};

verus! {

/// A finished game as saved: its answer and the guesses made.
pub struct Game {
    pub answer: String,
    pub guesses: Vec<String>,
}

/// The plain view of a game: its answer and its guesses.
pub open spec fn game_view(g: Game) -> (Seq<char>, Seq<Seq<char>>) {
    (g.answer@, words_of(g.guesses@))
}

pub open spec fn games_view(v: Seq<Game>) -> Seq<(Seq<char>, Seq<Seq<char>>)> {
    v.map_values(|g: Game| game_view(g))
}

/// A game with its answer and guesses in upper case.
pub open spec fn upper_game(g: (Seq<char>, Seq<Seq<char>>)) -> (Seq<char>, Seq<Seq<char>>) {
    (upper(g.0), g.1.map_values(|w: Seq<char>| upper(w)))
}

/// A game was won when its last guess is its answer.
pub open spec fn won(g: (Seq<char>, Seq<Seq<char>>)) -> bool {
    g.1.len() > 0 && g.1.last() == g.0
}

pub open spec fn count_wins(gs: Seq<(Seq<char>, Seq<Seq<char>>)>) -> nat
    decreases gs.len(),
{
    if gs.len() == 0 {
        0
    } else {
        count_wins(gs.drop_last()) + ind(won(gs.last()))
    }
}

pub open spec fn count_losses(gs: Seq<(Seq<char>, Seq<Seq<char>>)>) -> nat
    decreases gs.len(),
{
    if gs.len() == 0 {
        0
    } else {
        count_losses(gs.drop_last()) + ind(!won(gs.last()))
    }
}

/// The number of guesses made in the games that were won.
pub open spec fn count_tries(gs: Seq<(Seq<char>, Seq<Seq<char>>)>) -> nat
    decreases gs.len(),
{
    if gs.len() == 0 {
        0
    } else {
        count_tries(gs.drop_last()) + if won(gs.last()) {
            gs.last().1.len()
        } else {
            0
        }
    }
}

/// How many of the guesses are word `k` once lowered.
pub open spec fn occurrences_in(guesses: Seq<Seq<char>>, k: Seq<char>) -> nat
    decreases guesses.len(),
{
    if guesses.len() == 0 {
        0
    } else {
        occurrences_in(guesses.drop_last(), k) + ind(lower(guesses.last()) == k)
    }
}

/// How many guesses of all the games are word `k` once lowered.
pub open spec fn occurrences(gs: Seq<(Seq<char>, Seq<Seq<char>>)>, k: Seq<char>) -> nat
    decreases gs.len(),
{
    if gs.len() == 0 {
        0
    } else {
        occurrences(gs.drop_last(), k) + occurrences_in(gs.last().1, k)
    }
}

/// The answers of the games.
pub open spec fn answers(gs: Seq<(Seq<char>, Seq<Seq<char>>)>) -> Seq<Seq<char>> {
    gs.map_values(|g: (Seq<char>, Seq<Seq<char>>)| g.0)
}

/// Every game counts either as a win or as a loss.
pub proof fn lemma_every_game_counted(gs: Seq<(Seq<char>, Seq<Seq<char>>)>)
    ensures
        count_wins(gs) + count_losses(gs) == gs.len(),
    decreases gs.len(),
{
    if gs.len() > 0 {
        lemma_every_game_counted(gs.drop_last());
    }
}

impl Game {
    pub fn new(answer: String, guesses: Vec<String>) -> (g: Game)
        ensures
            g.answer == answer,
            g.guesses == guesses,
    {
        Game { answer, guesses }
    }
}

/// The saved games: how many were played and what they were.
pub struct State {
    pub total_rounds: Option<i32>,
    pub games: Option<Vec<Game>>,
}

/// The round count agrees with the saved games.
pub open spec fn rounds_match(s: State) -> bool {
    match s.total_rounds {
        None => true,
        Some(n) => s.games is Some && n == s.games->0@.len(),
    }
}

fn upper_words(v: &Vec<String>) -> (r: Vec<String>)
    ensures
        words_of(r@) == words_of(v@).map_values(|w: Seq<char>| upper(w)),
{
    let mut r: Vec<String> = Vec::new();
    let mut i: usize = 0;
    while i < v.len()
        invariant
            0 <= i <= v@.len(),
            words_of(r@) == words_of(v@.take(i as int)).map_values(|w: Seq<char>| upper(w)),
        decreases v@.len() - i,
    {
        let ghost r0 = r@;
        let u = ascii_uppercase(v[i].as_str());
        r.push(u);
        assert(words_of(r@) =~= words_of(r0).push(upper(v@[i as int]@)));
        assert(words_of(v@.take(i + 1)) =~= words_of(v@.take(i as int)).push(v@[i as int]@));
        assert(words_of(r@) =~= words_of(v@.take(i + 1)).map_values(|w: Seq<char>| upper(w)));
        i += 1;
    }
    assert(v@.take(v@.len() as int) =~= v@);
    r
}

impl State {
    /// Records one more game, with its answer and guesses in upper case.
    /// The first game recorded starts a new list of games.
    pub fn add_game(&mut self, game: Game)
        requires
            old(self).total_rounds is Some ==> old(self).games is Some && old(
                self,
            ).total_rounds->0 < i32::MAX,
        ensures
            final(self).games is Some,
            old(self).total_rounds is None ==> final(self).total_rounds == Some(1i32) && games_view(
                final(self).games->0@,
            ) == seq![upper_game(game_view(game))],
            old(self).total_rounds is Some ==> final(self).total_rounds == Some(
                (old(self).total_rounds->0 + 1) as i32,
            ) && games_view(final(self).games->0@) == games_view(old(self).games->0@).push(
                upper_game(game_view(game)),
            ),
            rounds_match(*old(self)) ==> rounds_match(*final(self)),
    {
        match self.total_rounds {
            None => {
                self.total_rounds = Some(1);
                self.games = Some(Vec::new());
            },
            Some(n) => {
                self.total_rounds = Some(n + 1);
            },
        }
        let up = Game { answer: ascii_uppercase(game.answer.as_str()), guesses: upper_words(&game.guesses) };
        let ghost upv = game_view(up);
        assert(upv == upper_game(game_view(game)));
        let mut games = match self.games.take() {
            Some(g) => g,
            None => Vec::new(),
        };
        let ghost before = games@;
        games.push(up);
        assert(games_view(games@) =~= games_view(before).push(upv));
        self.games = Some(games);
    }

    /// Adds the saved games to the statistics: each answer is recorded as
    /// used, each game counts as a win (its last guess is its answer) or a
    /// loss, every guess (lowered) is counted in the word frequencies, and
    /// the guesses of won games are added to the tries.
    pub fn tally(&self, game_data: &mut GameData)
        requires
            old(game_data).wf(),
            self.games is Some ==> old(game_data).wins() + count_wins(games_view(self.games->0@))
                <= u32::MAX,
            self.games is Some ==> old(game_data).losses() + count_losses(
                games_view(self.games->0@),
            ) <= u32::MAX,
            self.games is Some ==> old(game_data).tries() + count_tries(games_view(self.games->0@))
                <= u32::MAX,
            self.games is Some ==> forall|k: Seq<char>|
                count_in(old(game_data).frequencies(), k) + occurrences(
                    games_view(self.games->0@),
                    k,
                ) <= u32::MAX,
        ensures
            self.games is None ==> *final(game_data) == *old(game_data),
            self.games is Some ==> {
                let gs = games_view(self.games->0@);
                &&& final(game_data).wf()
                &&& final(game_data).wins() == old(game_data).wins() + count_wins(gs)
                &&& final(game_data).losses() == old(game_data).losses() + count_losses(gs)
                &&& final(game_data).tries() == old(game_data).tries() + count_tries(gs)
                &&& final(game_data).used() == old(game_data).used() + answers(gs)
                &&& forall|k: Seq<char>|
                    count_in(final(game_data).frequencies(), k) == count_in(
                        old(game_data).frequencies(),
                        k,
                    ) + occurrences(gs, k)
            },
    {
        match &self.games {
            None => {},
            Some(games) => {
                let ghost gs = games_view(games@);
                let ghost d0 = *game_data;
                let mut t: usize = 0;
                assert(gs.take(0) =~= Seq::<(Seq<char>, Seq<Seq<char>>)>::empty());
                assert(answers(gs.take(0)) =~= Seq::<Seq<char>>::empty());
                assert(d0.used() + answers(gs.take(0)) =~= d0.used());
                while t < games.len()
                    invariant
                        0 <= t <= games@.len(),
                        gs == games_view(games@),
                        game_data.wf(),
                        d0.wins() + count_wins(gs) <= u32::MAX,
                        d0.losses() + count_losses(gs) <= u32::MAX,
                        d0.tries() + count_tries(gs) <= u32::MAX,
                        forall|k: Seq<char>|
                            count_in(d0.frequencies(), k) + occurrences(gs, k) <= u32::MAX,
                        game_data.wins() == d0.wins() + count_wins(gs.take(t as int)),
                        game_data.losses() == d0.losses() + count_losses(gs.take(t as int)),
                        game_data.tries() == d0.tries() + count_tries(gs.take(t as int)),
                        game_data.used() == d0.used() + answers(gs.take(t as int)),
                        forall|k: Seq<char>|
                            #[trigger] count_in(game_data.frequencies(), k) == count_in(
                                d0.frequencies(),
                                k,
                            ) + occurrences(gs.take(t as int), k),
                    decreases games@.len() - t,
                {
                    let ghost dt = *game_data;
                    let game = &games[t];
                    let ghost gv = game_view(*game);
                    assert(gs[t as int] == gv);
                    assert(gs.take(t + 1).drop_last() =~= gs.take(t as int));
                    assert(gs.take(t + 1).last() == gv);
                    proof {
                        self.lemma_prefix_bounds(gs, t as int + 1);
                    }
                    game_data.push_used_answer(&game.answer);
                    assert(answers(gs.take(t + 1)) =~= answers(gs.take(t as int)).push(gv.0));
                    let n = game.guesses.len();
                    let win = n > 0 && game.guesses[n - 1] == game.answer;
                    assert(win == won(gv)) by {
                        if n > 0 {
                            assert(gv.1.last() == game.guesses@[n - 1]@);
                        }
                    }
                    if win {
                        game_data.add_win();
                    } else {
                        game_data.add_lose();
                    }
                    let ghost d1 = *game_data;
                    assert forall|k: Seq<char>|
                        count_in(d1.frequencies(), k) + occurrences_in(gv.1, k) <= u32::MAX by {
                        assert(occurrences(gs.take(t + 1), k) == occurrences(gs.take(t as int), k)
                            + occurrences_in(gv.1, k));
                        assert(count_in(dt.frequencies(), k) == count_in(d0.frequencies(), k)
                            + occurrences(gs.take(t as int), k));
                        assert(d1.frequencies() == dt.frequencies());
                        assert(occurrences(gs.take(t + 1), k) <= occurrences(gs, k));
                        assert(count_in(d0.frequencies(), k) + occurrences(gs, k) <= u32::MAX);
                    }
                    let mut j: usize = 0;
                    while j < n
                        invariant
                            0 <= j <= n,
                            n == game.guesses@.len(),
                            gv == game_view(*game),
                            game_data.wf(),
                            game_data.wins() == d1.wins(),
                            game_data.losses() == d1.losses(),
                            game_data.used() == d1.used(),
                            game_data.tries() == d1.tries() + if win {
                                j as nat
                            } else {
                                0
                            },
                            d1.tries() + if win {
                                n as nat
                            } else {
                                0
                            } <= u32::MAX,
                            forall|k: Seq<char>|
                                count_in(d1.frequencies(), k) + occurrences_in(gv.1, k)
                                    <= u32::MAX,
                            forall|k: Seq<char>|
                                #[trigger] count_in(game_data.frequencies(), k) == count_in(
                                    d1.frequencies(),
                                    k,
                                ) + occurrences_in(gv.1.take(j as int), k),
                        decreases n - j,
                    {
                        let ghost gw = gv.1;
                        assert(gw.take(j + 1).drop_last() =~= gw.take(j as int));
                        assert(gw.take(j + 1).last() == game.guesses@[j as int]@);
                        proof {
                            lemma_occurrences_prefix(gw, j as int + 1);
                            lemma_lower_idempotent(game.guesses@[j as int]@);
                        }
                        game_data.insert_word_frequency(&game.guesses[j]);
                        if win {
                            game_data.add_tries(1);
                        }
                        j += 1;
                    }
                    assert(gv.1.take(n as int) =~= gv.1);
                    assert forall|k: Seq<char>| #[trigger] count_in(game_data.frequencies(), k)
                        == count_in(d0.frequencies(), k) + occurrences(gs.take(t + 1), k) by {}
                    t += 1;
                }
                assert(gs.take(games@.len() as int) =~= gs);
            },
        }
    }

    proof fn lemma_prefix_bounds(&self, gs: Seq<(Seq<char>, Seq<Seq<char>>)>, t: int)
        requires
            0 <= t <= gs.len(),
        ensures
            count_wins(gs.take(t)) <= count_wins(gs),
            count_losses(gs.take(t)) <= count_losses(gs),
            count_tries(gs.take(t)) <= count_tries(gs),
            forall|k: Seq<char>| occurrences(gs.take(t), k) <= occurrences(gs, k),
        decreases gs.len(),
    {
        if t < gs.len() {
            assert(gs.drop_last().take(t) =~= gs.take(t));
            self.lemma_prefix_bounds(gs.drop_last(), t);
            assert forall|k: Seq<char>| occurrences(gs.take(t), k) <= occurrences(gs, k) by {
                assert(occurrences(gs.drop_last().take(t), k) <= occurrences(gs.drop_last(), k));
            }
        } else {
            assert(gs.take(t) =~= gs);
        }
    }
}

proof fn lemma_occurrences_prefix(g: Seq<Seq<char>>, j: int)
    requires
        0 <= j <= g.len(),
    ensures
        forall|k: Seq<char>| occurrences_in(g.take(j), k) <= occurrences_in(g, k),
    decreases g.len(),
{
    if j < g.len() {
        assert(g.drop_last().take(j) =~= g.take(j));
        lemma_occurrences_prefix(g.drop_last(), j);
        assert forall|k: Seq<char>| occurrences_in(g.take(j), k) <= occurrences_in(g, k) by {
            assert(occurrences_in(g.drop_last().take(j), k) <= occurrences_in(g.drop_last(), k));
        }
    } else {
        assert(g.take(j) =~= g);
    }
}

} // verus!
