use vstd::prelude::*;
use crate::text::{words_of, trimmed, upper, trim, char_uppercase};
use crate::feedback::{rank, judge, first_five};
use crate::feedback::{
    LetterState, colors, color_at, count5, ind, misplaced_before, unmatched_in_answer,
    lemma_misplaced_next, yellows_before, lemma_yellows_step, lemma_yellows_of_colors, taken,
    lemma_taken_after,
};

verus! {

/// Greens of the feedback sit exactly where guess and word agree.
pub open spec fn places_agree(g: Seq<char>, s: Seq<LetterState>, w: Seq<char>) -> bool {
    forall|i: int| 0 <= i < 5 ==> (#[trigger] s[i] == LetterState::G) == (g[i] == w[i])
}

/// How many yellow `c`s the feedback shows.
pub open spec fn yellows_of(g: Seq<char>, s: Seq<LetterState>, c: char) -> nat {
    count5(5, |i: int| s[i] == LetterState::Y && g[i] == c)
}

/// How many `c`s the word holds outside the green positions.
pub open spec fn spare_of(s: Seq<LetterState>, w: Seq<char>, c: char) -> nat {
    count5(5, |k: int| s[k] != LetterState::G && w[k] == c)
}

/// Word `w` is still possible after guess `g` received feedback `s`: greens
/// sit exactly where `g` and `w` agree; a yellow letter has at least as many
/// spare copies in `w` as the feedback shows yellows of it; and a red
/// letter has no spare copy in `w` beyond those yellows.
pub open spec fn consistent(g: Seq<char>, s: Seq<LetterState>, w: Seq<char>) -> bool {
    &&& places_agree(g, s, w)
    &&& forall|i: int|
        0 <= i < 5 && s[i] == LetterState::Y ==> #[trigger] yellows_of(g, s, g[i]) <= spare_of(
            s,
            w,
            g[i],
        )
    &&& forall|i: int|
        0 <= i < 5 && s[i] == LetterState::R ==> spare_of(s, w, g[i]) <= #[trigger] yellows_of(
            g,
            s,
            g[i],
        )
}

proof fn lemma_yellows_total(g: Seq<char>, s: Seq<LetterState>, c: char)
    ensures
        yellows_of(g, s, c) == yellows_before(g, s, c, 5),
{
}

proof fn lemma_taken_vs_spare(used: Seq<bool>, s: Seq<LetterState>, w: Seq<char>, c: char)
    requires
        used.len() == 5,
        forall|k: int| 0 <= k < 5 && s[k] == LetterState::G ==> used[k],
    ensures
        taken(used, s, w, c) <= spare_of(s, w, c),
        (forall|k: int| 0 <= k < 5 && !used[k] ==> w[k] != c) ==> spare_of(s, w, c) <= taken(
            used,
            s,
            w,
            c,
        ),
        (exists|k: int| 0 <= k < 5 && !used[k] && w[k] == c) ==> taken(used, s, w, c) < spare_of(
            s,
            w,
            c,
        ),
{
}

/// Whether `word` is still possible after the guess `gv` received `state`.
#[verifier::loop_isolation(false)]
#[verifier::rlimit(40)]
fn consistent_with(gv: &[char; 5], state: &[LetterState; 5], word: &String) -> (ok: bool)
    requires
        word@.len() == 5,
    ensures
        ok == consistent(gv@, state@, word@),
{
    let ghost g = gv@;
    let ghost s = state@;
    let ghost w = word@;
    let wv = first_five(word.as_str());
    let mut used = [false; 5];

    let mut i: usize = 0;
    while i < 5
        invariant
            0 <= i <= 5,
            g == gv@,
            s == state@,
            forall|k: int| 0 <= k < 5 ==> wv@[k] == w[k],
            forall|k: int| 0 <= k < i && s[k] == LetterState::G ==> g[k] == w[k],
            forall|k: int| 0 <= k < 5 ==> #[trigger] used@[k] == (k < i && s[k] == LetterState::G),
        decreases 5 - i,
    {
        if state[i] == LetterState::G {
            if gv[i] != wv[i] {
                proof {
                    assert(s[i as int] == LetterState::G && g[i as int] != w[i as int]);
                    assert(!places_agree(g, s, w));
                }
                return false;
            }
            used[i] = true;
        }
        i += 1;
    }

    let mut i: usize = 0;
    while i < 5
        invariant
            0 <= i <= 5,
            g == gv@,
            s == state@,
            forall|k: int| 0 <= k < 5 ==> wv@[k] == w[k],
            forall|k: int| 0 <= k < 5 && s[k] == LetterState::G ==> g[k] == w[k],
            forall|k: int| 0 <= k < i && s[k] != LetterState::G ==> g[k] != w[k],
        decreases 5 - i,
    {
        if gv[i] == wv[i] && state[i] != LetterState::G {
            proof {
                assert(s[i as int] != LetterState::G && g[i as int] == w[i as int]);
                assert(!places_agree(g, s, w));
            }
            return false;
        }
        i += 1;
    }
    assert(places_agree(g, s, w));

    proof {
        assert forall|c: char| #[trigger] taken(used@, s, w, c) == yellows_before(g, s, c, 0) by {
            lemma_yellows_step(g, s, c, 0);
        lemma_yellows_total(g, s, c);
        }
    }
    let mut i: usize = 0;
    while i < 5
        invariant
            0 <= i <= 5,
            g == gv@,
            s == state@,
            forall|k: int| 0 <= k < 5 ==> wv@[k] == w[k],
            places_agree(g, s, w),
            forall|k: int| 0 <= k < 5 && s[k] == LetterState::G ==> #[trigger] used@[k],
            forall|c: char| #[trigger] taken(used@, s, w, c) == yellows_before(g, s, c, i as int),
        decreases 5 - i,
    {
        if state[i] == LetterState::Y {
            let ghost before = used@;
            let ghost c = g[i as int];
            let mut found = false;
            let mut stop = false;
            let mut a: usize = 0;
            let ghost mut hit: int = 0;
            while a < 5 && !stop
                invariant
                    0 <= a <= 5,
                    0 <= i < 5,
                    gv@[i as int] == c,
                    s[i as int] == LetterState::Y,
                    forall|k: int| 0 <= k < 5 ==> wv@[k] == w[k],
                    places_agree(g, s, w),
                    found ==> stop,
                    !found ==> used@ == before,
                    !stop ==> forall|k: int| 0 <= k < a ==> !(w[k] == c && !before[k]),
                    stop && !found ==> false,
                    found ==> 0 <= hit < 5 && hit != i && !before[hit] && w[hit] == c
                        && used@ == before.update(hit, true),
                decreases 5 - a,
            {
                if wv[a] == gv[i] && !used[a] {
                    if a == i {
                        proof {
                            assert(s[i as int] == LetterState::Y);
                            assert(g[i as int] != w[i as int]);
                        }
                        stop = true;
                    } else {
                        found = true;
                        stop = true;
                        used[a] = true;
                        proof {
                            hit = a as int;
                        }
                    }
                }
                a += 1;
            }
            if !found {
                proof {
                    lemma_taken_vs_spare(before, s, w, c);
                    lemma_yellows_step(g, s, c, i as int);
        lemma_yellows_total(g, s, c);
                    assert(yellows_of(g, s, g[i as int]) > spare_of(s, w, g[i as int]));
                }
                return false;
            }
            proof {
                assert(s[hit] != LetterState::G);
                lemma_taken_vs_spare(before, s, w, c);
                assert forall|d: char| #[trigger]
                    taken(used@, s, w, d) == yellows_before(g, s, d, i + 1) by {
                    lemma_taken_after(before, s, w, hit, d);
                    lemma_yellows_step(g, s, d, i as int);
        lemma_yellows_total(g, s, d);
                }
            }
        } else {
            proof {
                assert forall|d: char| #[trigger]
                    taken(used@, s, w, d) == yellows_before(g, s, d, i + 1) by {
                    lemma_yellows_step(g, s, d, i as int);
        lemma_yellows_total(g, s, d);
                }
            }
        }
        i += 1;
    }
    proof {
        assert forall|c: char| #[trigger] taken(used@, s, w, c) == yellows_of(g, s, c) by {
            lemma_yellows_step(g, s, c, 4);
        lemma_yellows_total(g, s, c);
        }
        assert forall|k: int|
            0 <= k < 5 && s[k] == LetterState::Y implies #[trigger] yellows_of(g, s, g[k])
            <= spare_of(s, w, g[k]) by {
            lemma_taken_vs_spare(used@, s, w, g[k]);
        }
    }

    let mut j: usize = 0;
    while j < 5
        invariant
            0 <= j <= 5,
            g == gv@,
            s == state@,
            forall|k: int| 0 <= k < 5 ==> wv@[k] == w[k],
            forall|k: int| 0 <= k < 5 && s[k] == LetterState::G ==> #[trigger] used@[k],
            forall|c: char| #[trigger] taken(used@, s, w, c) == yellows_of(g, s, c),
            forall|k: int|
                0 <= k < j && s[k] == LetterState::R ==> spare_of(s, w, g[k])
                    <= #[trigger] yellows_of(g, s, g[k]),
        decreases 5 - j,
    {
        if state[j] == LetterState::R {
            let ghost c = g[j as int];
            let mut k: usize = 0;
            while k < 5
                invariant
                    0 <= k <= 5,
                    0 <= j < 5,
                    gv@[j as int] == c,
                    forall|m: int| 0 <= m < 5 ==> wv@[m] == w[m],
                    forall|m: int| 0 <= m < k ==> !(w[m] == c && !used@[m]),
                decreases 5 - k,
            {
                if wv[k] == gv[j] && !used[k] {
                    proof {
                        lemma_taken_vs_spare(used@, s, w, c);
                        assert(spare_of(s, w, g[j as int]) > yellows_of(g, s, g[j as int]));
                    }
                    return false;
                }
                k += 1;
            }
            proof {
                lemma_taken_vs_spare(used@, s, w, c);
            }
        }
        j += 1;
    }
    true
}

/// Whether the word at index `idx` of `words` survives the guess `g` with feedback `s`.
pub open spec fn survives(g: Seq<char>, s: Seq<LetterState>, words: Seq<Seq<char>>, idx: usize) -> bool {
    consistent(g, s, words[idx as int])
}

/// Keeps, in order, the indices of `filtered_answer` whose word in
/// `acceptable_set` is still possible after `guess` received `guess_state`.
pub fn filter(
    guess: &str,
    guess_state: &[LetterState; 5],
    acceptable_set: &Vec<String>,
    filtered_answer: &Vec<usize>,
) -> (res: Vec<usize>)
    requires
        guess@.len() >= 5,
        forall|t: int|
            0 <= t < filtered_answer@.len() ==> #[trigger] filtered_answer@[t]
                < acceptable_set@.len() && acceptable_set@[filtered_answer@[t] as int]@.len() == 5,
    ensures
        res@ == filtered_answer@.filter(
            |idx: usize| survives(guess@.take(5), guess_state@, words_of(acceptable_set@), idx),
        ),
{
    let gv = first_five(guess);
    let ghost g = gv@;
    let ghost words = words_of(acceptable_set@);
    let ghost pred = |idx: usize| survives(g, guess_state@, words, idx);
    assert(g =~= guess@.take(5));
    let mut res: Vec<usize> = Vec::new();
    let mut t: usize = 0;
    while t < filtered_answer.len()
        invariant
            0 <= t <= filtered_answer@.len(),
            g == gv@,
            words == words_of(acceptable_set@),
            pred == (|idx: usize| survives(g, guess_state@, words, idx)),
            forall|u: int|
                0 <= u < filtered_answer@.len() ==> #[trigger] filtered_answer@[u]
                    < acceptable_set@.len() && acceptable_set@[filtered_answer@[u] as int]@.len()
                    == 5,
            res@ == filtered_answer@.take(t as int).filter(pred),
        decreases filtered_answer@.len() - t,
    {
        reveal_with_fuel(Seq::<_>::filter, 1);
        let idx = filtered_answer[t];
        let ok = consistent_with(&gv, guess_state, &acceptable_set[idx]);
        assert(words[idx as int] == acceptable_set@[idx as int]@);
        if ok {
            res.push(idx);
        }
        assert(filtered_answer@.take(t + 1).drop_last() =~= filtered_answer@.take(t as int));
        t += 1;
    }
    assert(filtered_answer@.take(filtered_answer@.len() as int) =~= filtered_answer@);
    res
}


proof fn lemma_spare_of_colors(g: Seq<char>, w: Seq<char>, c: char)
    ensures
        spare_of(colors(g, w), w, c) == unmatched_in_answer(g, w, c),
{
    let s = colors(g, w);
    assert(forall|k: int| 0 <= k < 5 ==> s[k] == color_at(g, w, k));
}

/// The answer always survives the filter: scoring any guess against the
/// answer and filtering by that feedback never discards the answer. This is
/// what lets the solver always reach the answer.
pub proof fn lemma_answer_survives(g: Seq<char>, w: Seq<char>)
    requires
        g.len() >= 5,
        w.len() >= 5,
    ensures
        consistent(g.take(5), colors(g, w), w),
{
    let s = colors(g, w);
    let g5 = g.take(5);
    assert(colors(g5, w) =~= s) by {
        assert forall|c: char, i: int| 0 <= i <= 5 implies misplaced_before(g5, w, c, i)
            == misplaced_before(g, w, c, i) by {}
        assert forall|c: char| unmatched_in_answer(g5, w, c) == unmatched_in_answer(g, w, c) by {}
    }
    assert forall|i: int| 0 <= i < 5 implies (#[trigger] s[i] == LetterState::G) == (g5[i]
        == w[i]) by {
        assert(s[i] == color_at(g, w, i));
    }
    assert forall|i: int| 0 <= i < 5 && s[i] == LetterState::Y implies #[trigger] yellows_of(
        g5,
        s,
        g5[i],
    ) <= spare_of(s, w, g5[i]) by {
        let c = g5[i];
        lemma_yellows_of_colors(g5, w, c, 5);
        lemma_yellows_step(g5, s, c, 4);
        lemma_yellows_total(g5, s, c);
        lemma_spare_of_colors(g5, w, c);
    }
    assert forall|i: int| 0 <= i < 5 && s[i] == LetterState::R implies spare_of(s, w, g5[i])
        <= #[trigger] yellows_of(g5, s, g5[i]) by {
        let c = g5[i];
        assert(s[i] == color_at(g5, w, i));
        lemma_yellows_of_colors(g5, w, c, 5);
        lemma_yellows_step(g5, s, c, 4);
        lemma_yellows_total(g5, s, c);
        lemma_spare_of_colors(g5, w, c);
        lemma_misplaced_next(g5, w, c, i);
    }
}


/// Only the first five letters of the guess count.
proof fn lemma_colors_take(g: Seq<char>, x: Seq<char>)
    requires
        g.len() >= 5,
    ensures
        colors(g.take(5), x) == colors(g, x),
{
    let g5 = g.take(5);
    assert forall|c: char, i: int| 0 <= i <= 5 implies misplaced_before(g5, x, c, i)
        == misplaced_before(g, x, c, i) by {}
    assert forall|c: char| unmatched_in_answer(g5, x, c) == unmatched_in_answer(g, x, c) by {}
    assert(colors(g5, x) =~= colors(g, x));
}

/// Position `i` of guess `g` gets the same color against `v` as against
/// `w` when `v` is consistent with the feedback `g` received against `w`.
proof fn lemma_consistent_same_color(g: Seq<char>, w: Seq<char>, v: Seq<char>, i: int)
    requires
        g.len() == 5,
        0 <= i < 5,
        consistent(g, colors(g, w), v),
    ensures
        color_at(g, v, i) == colors(g, w)[i],
{
    let s = colors(g, w);
    let c = g[i];
    assert forall|k: int| 0 <= k < 5 implies (#[trigger] s[k] == LetterState::G) == (g[k]
        == w[k]) && s[k] != LetterState::X by {
        assert(s[k] == color_at(g, w, k));
    }
    assert(s[i] == color_at(g, w, i));
    assert((s[i] == LetterState::G) == (g[i] == v[i]));
    if g[i] != v[i] {
        assert(misplaced_before(g, v, c, i) == misplaced_before(g, w, c, i)) by {
            assert((g[0] == v[0]) == (g[0] == w[0]));
            assert((g[1] == v[1]) == (g[1] == w[1]));
            assert((g[2] == v[2]) == (g[2] == w[2]));
            assert((g[3] == v[3]) == (g[3] == w[3]));
            assert((g[4] == v[4]) == (g[4] == w[4]));
        }
        assert(unmatched_in_answer(g, v, c) == spare_of(s, v, c)) by {
            assert((s[0] != LetterState::G) == (g[0] != v[0]));
            assert((s[1] != LetterState::G) == (g[1] != v[1]));
            assert((s[2] != LetterState::G) == (g[2] != v[2]));
            assert((s[3] != LetterState::G) == (g[3] != v[3]));
            assert((s[4] != LetterState::G) == (g[4] != v[4]));
        }
        lemma_yellows_of_colors(g, w, c, 5);
        lemma_yellows_total(g, s, c);
        lemma_misplaced_next(g, w, c, i);
        if s[i] == LetterState::Y {
            assert(yellows_of(g, s, g[i]) <= spare_of(s, v, g[i]));
        } else {
            assert(s[i] == LetterState::R);
            assert(spare_of(s, v, g[i]) <= yellows_of(g, s, g[i]));
        }
    }
}

/// The filter is exact on real feedback: when the guess received `s`
/// against some five-letter word `w`, a five-letter word `v` is kept
/// exactly when the guess would receive the same colors against `v`.
pub proof fn lemma_filter_exact(g: Seq<char>, w: Seq<char>, v: Seq<char>)
    requires
        g.len() >= 5,
        w.len() >= 5,
        v.len() >= 5,
    ensures
        consistent(g.take(5), colors(g, w), v) <==> colors(g, v) == colors(g, w),
{
    let g5 = g.take(5);
    lemma_colors_take(g, w);
    lemma_colors_take(g, v);
    if colors(g, v) == colors(g, w) {
        lemma_answer_survives(g, v);
    }
    if consistent(g5, colors(g, w), v) {
        assert forall|i: int| 0 <= i < 5 implies #[trigger] colors(g5, v)[i] == colors(g5, w)[i] by {
            lemma_consistent_same_color(g5, w, v, i);
        }
        assert(colors(g5, v) =~= colors(g5, w));
    }
}

/// Filtering with two tests that agree on every element gives the same result.
proof fn lemma_filter_agree(t: Seq<usize>, p: spec_fn(usize) -> bool, q: spec_fn(usize) -> bool)
    requires
        forall|k: int| 0 <= k < t.len() ==> p(#[trigger] t[k]) == q(t[k]),
    ensures
        t.filter(p) == t.filter(q),
    decreases t.len(),
{
    reveal_with_fuel(Seq::<_>::filter, 1);
    if t.len() > 0 {
        let d = t.drop_last();
        assert forall|k: int| 0 <= k < d.len() implies p(#[trigger] d[k]) == q(d[k]) by {
            assert(d[k] == t[k]);
        }
        lemma_filter_agree(d, p, q);
        assert(p(t[t.len() - 1]) == q(t[t.len() - 1]));
    }
}

/// What `filter` keeps on real feedback: when `s` is the coloring that the
/// guess `g` receives against some five-letter word `w`, filtering the
/// indices `t` of five-letter words keeps, in order and with repeats,
/// exactly those whose word gives the guess the coloring `s`.
pub proof fn lemma_filter_keeps_same_feedback(
    g: Seq<char>,
    w: Seq<char>,
    words: Seq<Seq<char>>,
    t: Seq<usize>,
)
    requires
        g.len() >= 5,
        w.len() >= 5,
        forall|k: int| 0 <= k < t.len() ==> #[trigger] t[k] < words.len() && words[t[k] as int].len() == 5,
    ensures
        t.filter(|idx: usize| survives(g.take(5), colors(g, w), words, idx)) == t.filter(
            |idx: usize| colors(g, words[idx as int]) == colors(g, w),
        ),
{
    let p = |idx: usize| survives(g.take(5), colors(g, w), words, idx);
    let q = |idx: usize| colors(g, words[idx as int]) == colors(g, w);
    assert forall|k: int| 0 <= k < t.len() implies p(#[trigger] t[k]) == q(t[k]) by {
        lemma_filter_exact(g, w, words[t[k] as int]);
    }
    lemma_filter_agree(t, p, q);
}

/// The bucket of a coloring made of `R`, `Y` and `G` only: its place among
/// all such colorings in increasing order (`R < Y < G`, first letter first),
/// that is the colors read as a base-3 number with `R = 0`, `Y = 1`, `G = 2`.
pub open spec fn pattern_index(s: Seq<LetterState>) -> int {
    81 * (rank(s[0]) - 1) + 27 * (rank(s[1]) - 1) + 9 * (rank(s[2]) - 1) + 3 * (rank(s[3]) - 1)
        + (rank(s[4]) - 1)
}

/// No color is `X`.
pub open spec fn scored(s: Seq<LetterState>) -> bool {
    forall|i: int| 0 <= i < 5 ==> #[trigger] s[i] != LetterState::X
}

/// The bucket of a coloring.
pub fn state_index(state: &[LetterState; 5]) -> (r: usize)
    requires
        scored(state@),
    ensures
        r == pattern_index(state@),
        r < 243,
{
    assert(state@[0] != LetterState::X && state@[1] != LetterState::X && state@[2] != LetterState::X
        && state@[3] != LetterState::X && state@[4] != LetterState::X);
    let d0 = (state[0].rank() - 1) as usize;
    let d1 = (state[1].rank() - 1) as usize;
    let d2 = (state[2].rank() - 1) as usize;
    let d3 = (state[3].rank() - 1) as usize;
    let d4 = (state[4].rank() - 1) as usize;
    81 * d0 + 27 * d1 + 9 * d2 + 3 * d3 + d4
}

/// Different colorings fall in different buckets.
pub proof fn lemma_pattern_index_injective(a: Seq<LetterState>, b: Seq<LetterState>)
    requires
        a.len() == 5,
        b.len() == 5,
        scored(a),
        scored(b),
        pattern_index(a) == pattern_index(b),
    ensures
        a == b,
{
    assert(a[0] != LetterState::X && a[1] != LetterState::X && a[2] != LetterState::X && a[3]
        != LetterState::X && a[4] != LetterState::X);
    assert(b[0] != LetterState::X && b[1] != LetterState::X && b[2] != LetterState::X && b[3]
        != LetterState::X && b[4] != LetterState::X);
    assert(a =~= b);
}

/// Judged colors are never `X`.
pub proof fn lemma_colors_scored(g: Seq<char>, a: Seq<char>)
    ensures
        scored(colors(g, a)),
{
}

/// How many of the words at the indices `idxs` give the coloring in bucket
/// `k` when guess `g` is scored against them.
pub open spec fn bucket_count(g: Seq<char>, words: Seq<Seq<char>>, idxs: Seq<usize>, k: int) -> nat
    decreases idxs.len(),
{
    if idxs.len() == 0 {
        0
    } else {
        bucket_count(g, words, idxs.drop_last(), k) + if pattern_index(
            colors(g, words[idxs.last() as int]),
        ) == k {
            1nat
        } else {
            0nat
        }
    }
}

/// The count in bucket `k` is the number of candidates `w` (with repeats)
/// against which the guess `g` receives a coloring in bucket `k`.
pub proof fn lemma_bucket_count_is_filter(g: Seq<char>, words: Seq<Seq<char>>, idxs: Seq<usize>, k: int)
    ensures
        bucket_count(g, words, idxs, k) == idxs.filter(
            |i: usize| pattern_index(colors(g, words[i as int])) == k,
        ).len(),
    decreases idxs.len(),
{
    reveal_with_fuel(Seq::<_>::filter, 1);
    if idxs.len() > 0 {
        lemma_bucket_count_is_filter(g, words, idxs.drop_last(), k);
    }
}

/// A single candidate `w` is counted once, in the bucket of the coloring
/// the guess receives against it, and nowhere else.
pub proof fn lemma_bucket_count_single(g: Seq<char>, words: Seq<Seq<char>>, i: usize, k: int)
    ensures
        bucket_count(g, words, seq![i], k) == (if k == pattern_index(colors(g, words[i as int])) {
            1nat
        } else {
            0nat
        }),
{
    assert(seq![i].drop_last() =~= Seq::<usize>::empty());
    assert(bucket_count(g, words, Seq::<usize>::empty(), k) == 0);
    assert(seq![i].last() == i);
}

/// For each of the 243 colorings, how many of the candidate answers
/// (`filtered_answer` indexes `acceptable_set`) would show it for `guess`.
pub fn pattern_counts(guess: &String, acceptable_set: &Vec<String>, filtered_answer: &Vec<usize>) -> (r:
    Vec<u64>)
    requires
        guess@.len() >= 5,
        forall|t: int|
            0 <= t < filtered_answer@.len() ==> #[trigger] filtered_answer@[t]
                < acceptable_set@.len() && acceptable_set@[filtered_answer@[t] as int]@.len() >= 5,
    ensures
        r@.len() == 243,
        forall|k: int|
            0 <= k < 243 ==> #[trigger] r@[k] == bucket_count(
                guess@,
                words_of(acceptable_set@),
                filtered_answer@,
                k,
            ),
        forall|k: int|
            0 <= k < 243 ==> #[trigger] r@[k] == filtered_answer@.filter(
                |i: usize| pattern_index(colors(guess@, words_of(acceptable_set@)[i as int])) == k,
            ).len(),
{
    let ghost words = words_of(acceptable_set@);
    let mut res: Vec<u64> = vec![0u64; 243];
    let mut t: usize = 0;
    assert(filtered_answer@.take(0) =~= Seq::<usize>::empty());
    while t < filtered_answer.len()
        invariant
            t <= filtered_answer@.len(),
            guess@.len() >= 5,
            words == words_of(acceptable_set@),
            res@.len() == 243,
            forall|u: int|
                0 <= u < filtered_answer@.len() ==> #[trigger] filtered_answer@[u]
                    < acceptable_set@.len() && acceptable_set@[filtered_answer@[u] as int]@.len()
                    >= 5,
            forall|k: int|
                0 <= k < 243 ==> #[trigger] res@[k] == bucket_count(
                    guess@,
                    words,
                    filtered_answer@.take(t as int),
                    k,
                ) && res@[k] <= t,
        decreases filtered_answer@.len() - t,
    {
        let idx = filtered_answer[t];
        let word = &acceptable_set[idx];
        assert(words[idx as int] == word@);
        let st = judge(guess.as_str(), word.as_str());
        proof {
            lemma_colors_scored(guess@, word@);
        }
        let b = state_index(&st);
        let ghost prev = res@;
        let v = res[b] + 1;
        res.set(b, v);
        assert(filtered_answer@.take(t + 1).drop_last() =~= filtered_answer@.take(t as int));
        assert forall|k: int| 0 <= k < 243 implies #[trigger] res@[k] == bucket_count(
            guess@,
            words,
            filtered_answer@.take(t + 1),
            k,
        ) && res@[k] <= t + 1 by {
            assert(prev[k] == bucket_count(guess@, words, filtered_answer@.take(t as int), k));
        }
        t += 1;
    }
    assert(filtered_answer@.take(filtered_answer@.len() as int) =~= filtered_answer@);
    proof {
        assert forall|k: int| 0 <= k < 243 implies #[trigger] res@[k] == filtered_answer@.filter(
            |i: usize| pattern_index(colors(guess@, words[i as int])) == k,
        ).len() by {
            lemma_bucket_count_is_filter(guess@, words, filtered_answer@, k);
        }
    }
    res
}

/// The color a letter of typed feedback stands for.
pub open spec fn feedback_letter(c: char) -> LetterState {
    if c == 'G' {
        LetterState::G
    } else if c == 'Y' {
        LetterState::Y
    } else {
        LetterState::R
    }
}

/// Typed feedback is, once trimmed and upper cased, at most five of the
/// letters `G`, `Y`, `R`.
pub open spec fn feedback_ok(line: Seq<char>) -> bool {
    let t = upper(trimmed(line));
    &&& t.len() <= 5
    &&& forall|i: int| 0 <= i < t.len() ==> #[trigger] t[i] == 'G' || t[i] == 'Y' || t[i] == 'R'
}

/// Reads feedback typed as letters such as `YRGYR` (trimmed, in any case):
/// `G`, `Y` and `R` give the colors of the first positions, positions not
/// typed stay `X`. Anything else gives `None`.
pub fn parse_feedback(line: &str) -> (r: Option<[LetterState; 5]>)
    ensures
        r is Some == feedback_ok(line@),
        r is Some ==> forall|i: int|
            0 <= i < 5 ==> #[trigger] r->0@[i] == (if i < trimmed(line@).len() {
                feedback_letter(upper(trimmed(line@))[i])
            } else {
                LetterState::X
            }),
{
    let tr = trim(line);
    let n = tr.unicode_len();
    let ghost t = upper(trimmed(line@));
    if n > 5 {
        return None;
    }
    let mut st = [LetterState::X; 5];
    let mut i: usize = 0;
    while i < n
        invariant
            i <= n,
            n <= 5,
            n == tr@.len(),
            tr@ == trimmed(line@),
            t == upper(tr@),
            forall|k: int| 0 <= k < i ==> #[trigger] t[k] == 'G' || t[k] == 'Y' || t[k] == 'R',
            forall|k: int|
                0 <= k < 5 ==> #[trigger] st@[k] == (if k < i {
                    feedback_letter(t[k])
                } else {
                    LetterState::X
                }),
        decreases n - i,
    {
        let c = char_uppercase(tr.get_char(i));
        assert(c == t[i as int]);
        if c == 'G' {
            st[i] = LetterState::G;
        } else if c == 'Y' {
            st[i] = LetterState::Y;
        } else if c == 'R' {
            st[i] = LetterState::R;
        } else {
            return None;
        }
        i += 1;
    }
    Some(st)
}

} // verus!
