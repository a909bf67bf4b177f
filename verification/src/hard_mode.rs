use vstd::prelude::*;
use crate::feedback::{
    LetterState, judge, colors, color_at, count5, ind, yellows_before, lemma_yellows_of_colors, unmatched_in_answer,
    taken, lemma_taken_after,
};

verus! {

/// Every green of the previous guess is green again in the new guess.
pub open spec fn keeps_greens(last_colors: Seq<LetterState>, new_colors: Seq<LetterState>) -> bool {
    forall|i: int|
        0 <= i < 5 && last_colors[i] == LetterState::G ==> new_colors[i] == LetterState::G
}

/// How many yellow `c`s the previous guess showed.
pub open spec fn yellow_demand(l: Seq<char>, last_colors: Seq<LetterState>, c: char) -> nat {
    count5(5, |i: int| last_colors[i] == LetterState::Y && l[i] == c)
}

/// How many positions, outside the previous guess's greens, hold a `c` of
/// the new guess that is yellow or green.
pub open spec fn yellow_supply(
    g: Seq<char>,
    last_colors: Seq<LetterState>,
    new_colors: Seq<LetterState>,
    c: char,
) -> nat {
    count5(
        5,
        |j: int|
            last_colors[j] != LetterState::G && (new_colors[j] == LetterState::Y || new_colors[j]
                == LetterState::G) && g[j] == c,
    )
}

/// Hard mode: guess `g` may follow guess `l` (both scored against answer
/// `a`) when it keeps every green of `l` in place and, for each letter that
/// `l` showed yellow, holds at least as many yellow-or-green copies of that
/// letter outside those greens as `l` showed yellows.
pub open spec fn hard_mode_allows(g: Seq<char>, l: Seq<char>, a: Seq<char>) -> bool {
    let ws = colors(g, a);
    let ls = colors(l, a);
    &&& keeps_greens(ls, ws)
    &&& forall|i: int|
        0 <= i < 5 && ls[i] == LetterState::Y ==> #[trigger] yellow_demand(l, ls, l[i])
            <= yellow_supply(g, ls, ws, l[i])
}

spec fn demand_before(l: Seq<char>, ls: Seq<LetterState>, c: char, i: int) -> nat {
    count5(i, |k: int| ls[k] == LetterState::Y && l[k] == c)
}

proof fn lemma_demand_step(l: Seq<char>, ls: Seq<LetterState>, c: char, i: int)
    requires
        0 <= i < 5,
    ensures
        demand_before(l, ls, c, i + 1) == demand_before(l, ls, c, i) + ind(
            ls[i] == LetterState::Y && l[i] == c,
        ),
        demand_before(l, ls, c, i + 1) <= yellow_demand(l, ls, c),
        demand_before(l, ls, c, 5) == yellow_demand(l, ls, c),
{
}

proof fn lemma_taken_vs_supply(
    used: Seq<bool>,
    ls: Seq<LetterState>,
    ws: Seq<LetterState>,
    g: Seq<char>,
    c: char,
)
    requires
        used.len() == 5,
        forall|k: int|
            0 <= k < 5 && used[k] && ls[k] != LetterState::G ==> ws[k] == LetterState::Y || ws[k]
                == LetterState::G,
        forall|k: int| 0 <= k < 5 && ls[k] == LetterState::G ==> used[k],
    ensures
        taken(used, ls, g, c) <= yellow_supply(g, ls, ws, c),
        (forall|k: int|
            0 <= k < 5 && !used[k] ==> !((ws[k] == LetterState::Y || ws[k] == LetterState::G)
                && g[k] == c)) ==> yellow_supply(g, ls, ws, c) <= taken(used, ls, g, c),
{
}

/// Whether `guess` is a legal hard-mode guess after `last_word`, both scored
/// against `answer`.
pub fn check_guess_in_difficult(guess: &String, last_word: &String, answer: &String) -> (ok: bool)
    requires
        guess@.len() >= 5,
        last_word@.len() >= 5,
        answer@.len() >= 5,
    ensures
        ok == hard_mode_allows(guess@, last_word@, answer@),
{
    let ghost g = guess@;
    let ghost l = last_word@;
    let ghost a = answer@;
    let word_state = judge(guess.as_str(), answer.as_str());
    let last_state = judge(last_word.as_str(), answer.as_str());
    let ghost ws = word_state@;
    let ghost ls = last_state@;
    let mut used = [false; 5];

    let mut i: usize = 0;
    while i < 5
        invariant
            0 <= i <= 5,
            guess@ == g,
            last_word@ == l,
            answer@ == a,
            ws == colors(g, a),
            ls == colors(l, a),
            word_state@ == ws,
            last_state@ == ls,
            forall|k: int| 0 <= k < i && ls[k] == LetterState::G ==> ws[k] == LetterState::G,
            forall|k: int| 0 <= k < 5 ==> #[trigger] used@[k] == (k < i && ls[k] == LetterState::G),
        decreases 5 - i,
    {
        if last_state[i] == LetterState::G {
            if word_state[i] != LetterState::G {
                proof {
                    assert(ls[i as int] == LetterState::G && ws[i as int] != LetterState::G);
                    assert(!keeps_greens(ls, ws));
                }
                return false;
            }
            used[i] = true;
        }
        i += 1;
    }
    proof {
        assert forall|c: char| #[trigger] taken(used@, ls, g, c) == demand_before(l, ls, c, 0) by {}
    }

    let mut i: usize = 0;
    while i < 5
        invariant
            0 <= i <= 5,
            g.len() >= 5,
            l.len() >= 5,
            guess@ == g,
            last_word@ == l,
            answer@ == a,
            ws == colors(g, a),
            ls == colors(l, a),
            word_state@ == ws,
            last_state@ == ls,
            keeps_greens(ls, ws),
            forall|k: int| 0 <= k < 5 && ls[k] == LetterState::G ==> #[trigger] used@[k],
            forall|k: int|
                0 <= k < 5 && #[trigger] used@[k] && ls[k] != LetterState::G ==> ws[k]
                    == LetterState::Y || ws[k] == LetterState::G,
            forall|c: char| #[trigger]
                taken(used@, ls, g, c) == demand_before(l, ls, c, i as int),
        decreases 5 - i,
    {
        if last_state[i] == LetterState::Y {
            let ghost before = used@;
            let ghost c = l[i as int];
            let li = last_word.as_str().get_char(i);
            let mut matched = false;
            let mut j: usize = 0;
            let ghost mut hit: int = 0;
            while j < 5 && !matched
                invariant
                    0 <= j <= 5,
                    0 <= i < 5,
                    li == c,
                    g.len() >= 5,
                    guess@ == g,
                    word_state@ == ws,
                    ls[i as int] == LetterState::Y,
                    !matched ==> used@ == before,
                    !matched ==> forall|k: int|
                        0 <= k < j ==> !(!before[k] && (ws[k] == LetterState::Y || ws[k]
                            == LetterState::G) && g[k] == c),
                    matched ==> 0 <= hit < 5 && !before[hit] && (ws[hit] == LetterState::Y
                        || ws[hit] == LetterState::G) && g[hit] == c && used@ == before.update(
                        hit,
                        true,
                    ),
                decreases 5 - j,
            {
                if !used[j] && word_state[j].rank() >= 2 && guess.as_str().get_char(j) == li {
                    used[j] = true;
                    matched = true;
                    proof {
                        hit = j as int;
                    }
                }
                j += 1;
            }
            if !matched {
                proof {
                    lemma_taken_vs_supply(before, ls, ws, g, c);
                    lemma_demand_step(l, ls, c, i as int);
                    assert(yellow_demand(l, ls, l[i as int]) > yellow_supply(g, ls, ws, l[i as int]));
                }
                return false;
            }
            proof {
                assert(ls[hit] != LetterState::G);
                assert forall|d: char| #[trigger]
                    taken(used@, ls, g, d) == demand_before(l, ls, d, i + 1) by {
                    lemma_taken_after(before, ls, g, hit, d);
                    lemma_demand_step(l, ls, d, i as int);
                }
            }
        } else {
            proof {
                assert forall|d: char| #[trigger]
                    taken(used@, ls, g, d) == demand_before(l, ls, d, i + 1) by {
                    lemma_demand_step(l, ls, d, i as int);
                }
            }
        }
        i += 1;
    }
    proof {
        assert forall|k: int|
            0 <= k < 5 && ls[k] == LetterState::Y implies #[trigger] yellow_demand(l, ls, l[k])
            <= yellow_supply(g, ls, ws, l[k]) by {
            lemma_taken_vs_supply(used@, ls, ws, g, l[k]);
            lemma_demand_step(l, ls, l[k], 4);
        }
    }
    true
}


/// In hard mode the answer itself is always a legal guess, whatever was guessed before.
pub proof fn lemma_answer_always_allowed(l: Seq<char>, a: Seq<char>)
    ensures
        hard_mode_allows(a, l, a),
{
    let ws = colors(a, a);
    let ls = colors(l, a);
    assert forall|j: int| 0 <= j < 5 implies #[trigger] ws[j] == LetterState::G by {
        assert(ws[j] == color_at(a, a, j));
    }
    assert forall|i: int|
        0 <= i < 5 && ls[i] == LetterState::Y implies #[trigger] yellow_demand(l, ls, l[i])
        <= yellow_supply(a, ls, ws, l[i]) by {
        let c = l[i];
        lemma_yellows_of_colors(l, a, c, 5);
        assert(yellow_demand(l, ls, c) == yellows_before(l, ls, c, 5));
        assert forall|j: int| 0 <= j < 5 implies (#[trigger] ls[j] != LetterState::G) == (l[j]
            != a[j]) by {
            assert(ls[j] == color_at(l, a, j));
        }
        assert(yellow_supply(a, ls, ws, c) == unmatched_in_answer(l, a, c));
    }
}

/// In hard mode repeating the previous guess is always legal.
pub proof fn lemma_repeat_always_allowed(l: Seq<char>, a: Seq<char>)
    ensures
        hard_mode_allows(l, l, a),
{
}

} // verus!
