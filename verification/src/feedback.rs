use vstd::prelude::*;

verus! {

broadcast use vstd::array::group_array_axioms;

/// The color a letter receives. Ordered `X < R < Y < G`: `X` is a key not
/// yet tried, `R` a letter absent from the answer, `Y` present elsewhere,
/// `G` in the right place.
#[derive(PartialEq, Eq, Structural, Copy, Clone, Debug, PartialOrd, Ord, Hash)]
pub enum LetterState {
    X,
    R,
    Y,
    G,
}

/// The position of a state in the order `X < R < Y < G`.
pub open spec fn rank(s: LetterState) -> nat {
    match s {
        LetterState::X => 0,
        LetterState::R => 1,
        LetterState::Y => 2,
        LetterState::G => 3,
    }
}

impl LetterState {
    /// The rank of this state in the order `X < R < Y < G`.
    pub fn rank(&self) -> (r: u8)
        ensures
            r == rank(*self),
    {
        match self {
            LetterState::X => 0,
            LetterState::R => 1,
            LetterState::Y => 2,
            LetterState::G => 3,
        }
    }
}


/// 1 when `b` holds, else 0.
pub open spec fn ind(b: bool) -> nat {
    if b {
        1
    } else {
        0
    }
}

/// How many of the first `n` positions of a five-letter word satisfy `p`.
pub open spec fn count5(n: int, p: spec_fn(int) -> bool) -> nat {
    ind(0 < n && p(0)) + ind(1 < n && p(1)) + ind(2 < n && p(2)) + ind(3 < n && p(3)) + ind(
        4 < n && p(4),
    )
}

/// How many letters `c` of the answer are not already matched in place by the guess.
pub open spec fn unmatched_in_answer(g: Seq<char>, a: Seq<char>, c: char) -> nat {
    count5(5, |j: int| a[j] == c && g[j] != a[j])
}

/// How many letters `c` stand in the guess, out of place, before position `i`.
pub open spec fn misplaced_before(g: Seq<char>, a: Seq<char>, c: char, i: int) -> nat {
    count5(i, |k: int| g[k] == c && g[k] != a[k])
}

/// The color of position `i` of guess `g` against answer `a`: green where the
/// letters agree; otherwise yellow while the answer still holds an unmatched
/// copy of the letter for this occurrence (occurrences are served left to
/// right), and red once the copies are used up.
pub open spec fn color_at(g: Seq<char>, a: Seq<char>, i: int) -> LetterState {
    if g[i] == a[i] {
        LetterState::G
    } else if misplaced_before(g, a, g[i], i) < unmatched_in_answer(g, a, g[i]) {
        LetterState::Y
    } else {
        LetterState::R
    }
}

/// The colors of the first five letters of guess `g` against answer `a`.
pub open spec fn colors(g: Seq<char>, a: Seq<char>) -> Seq<LetterState> {
    Seq::new(5, |i: int| color_at(g, a, i))
}

/// The first five letters of a word.
pub fn first_five(w: &str) -> (r: [char; 5])
    requires
        w@.len() >= 5,
    ensures
        forall|i: int| 0 <= i < 5 ==> r@[i] == w@[i],
{
    [w.get_char(0), w.get_char(1), w.get_char(2), w.get_char(3), w.get_char(4)]
}

/// How many positions of the answer already carry a yellow mark for letter `c`.
pub open spec fn yellow_marks(marks: Seq<LetterState>, a: Seq<char>, c: char) -> nat {
    count5(5, |j: int| marks[j] == LetterState::Y && a[j] == c)
}

pub open spec fn min_nat(x: nat, y: nat) -> nat {
    if x <= y {
        x
    } else {
        y
    }
}

pub proof fn lemma_misplaced_next(g: Seq<char>, a: Seq<char>, c: char, i: int)
    requires
        0 <= i < 5,
    ensures
        misplaced_before(g, a, c, i + 1) == misplaced_before(g, a, c, i) + ind(
            g[i] == c && g[i] != a[i],
        ),
        misplaced_before(g, a, c, i + 1) <= misplaced_before(g, a, c, 5),
        misplaced_before(g, a, c, 0) == 0,
{
}

proof fn lemma_marks_after_hit(marks: Seq<LetterState>, a: Seq<char>, hit: int, c: char)
    requires
        marks.len() == 5,
        0 <= hit < 5,
        marks[hit] == LetterState::R,
    ensures
        yellow_marks(marks.update(hit, LetterState::Y), a, c) == yellow_marks(marks, a, c) + ind(
            a[hit] == c,
        ),
{
}

proof fn lemma_marks_bounded(g: Seq<char>, a: Seq<char>, marks: Seq<LetterState>, c: char)
    requires
        marks.len() == 5,
        forall|k: int| 0 <= k < 5 ==> (marks[k] == LetterState::G) == (g[k] == a[k]),
        forall|k: int| 0 <= k < 5 ==> marks[k] != LetterState::X,
    ensures
        yellow_marks(marks, a, c) <= unmatched_in_answer(g, a, c),
        (forall|k: int| 0 <= k < 5 && a[k] == c && g[k] != a[k] ==> marks[k] != LetterState::R)
            ==> yellow_marks(marks, a, c) == unmatched_in_answer(g, a, c),
        (exists|k: int| 0 <= k < 5 && a[k] == c && g[k] != a[k] && marks[k] == LetterState::R)
            ==> yellow_marks(marks, a, c) < unmatched_in_answer(g, a, c),
{
}

/// Colors the first five letters of `guess` against `answer`: a letter in
/// its place is green, a letter found elsewhere in the answer is yellow as
/// long as the answer has an unused copy of it, and any other letter is red.
pub fn judge(guess: &str, answer: &str) -> (res: [LetterState; 5])
    requires
        guess@.len() >= 5,
        answer@.len() >= 5,
    ensures
        res@ == colors(guess@, answer@),
{
    let ghost g = guess@;
    let ghost a = answer@;
    let gv = first_five(guess);
    let av = first_five(answer);
    let mut words_state = [LetterState::R; 5];
    let mut answer_state = [LetterState::R; 5];

    let mut i: usize = 0;
    while i < 5
        invariant
            0 <= i <= 5,
            g.len() >= 5,
            a.len() >= 5,
            forall|k: int| 0 <= k < 5 ==> gv@[k] == g[k] && av@[k] == a[k],
            forall|k: int|
                0 <= k < 5 ==> #[trigger] words_state@[k] == (if k < i && g[k] == a[k] {
                    LetterState::G
                } else {
                    LetterState::R
                }),
            forall|k: int| 0 <= k < 5 ==> answer_state@[k] == words_state@[k],
        decreases 5 - i,
    {
        if gv[i] == av[i] {
            words_state[i] = LetterState::G;
            answer_state[i] = LetterState::G;
        }
        i += 1;
    }

    let mut i: usize = 0;
    while i < 5
        invariant
            0 <= i <= 5,
            g.len() >= 5,
            a.len() >= 5,
            forall|k: int| 0 <= k < 5 ==> gv@[k] == g[k] && av@[k] == a[k],
            forall|k: int|
                0 <= k < 5 ==> (#[trigger] answer_state@[k] == LetterState::G) == (g[k] == a[k]),
            forall|k: int| 0 <= k < 5 ==> answer_state@[k] != LetterState::X,
            forall|k: int| 0 <= k < i ==> #[trigger] words_state@[k] == color_at(g, a, k),
            forall|k: int|
                i <= k < 5 ==> #[trigger] words_state@[k] == (if g[k] == a[k] {
                    LetterState::G
                } else {
                    LetterState::R
                }),
            forall|c: char|
                #[trigger] yellow_marks(answer_state@, a, c) == min_nat(
                    misplaced_before(g, a, c, i as int),
                    unmatched_in_answer(g, a, c),
                ),
        decreases 5 - i,
    {
        let ghost before = answer_state@;
        if words_state[i] != LetterState::G {
            let ghost ws_before = words_state@;
            let mut found = false;
            let mut j: usize = 0;
            let ghost mut hit: int = 0;
            while j < 5 && !found
                invariant
                    0 <= j <= 5,
                    0 <= i < 5,
                    g[i as int] != a[i as int],
                    forall|k: int| 0 <= k < 5 ==> gv@[k] == g[k] && av@[k] == a[k],
                    !found ==> answer_state@ == before,
                    !found ==> words_state@[i as int] == LetterState::R,
                    !found ==> forall|k: int|
                        0 <= k < j ==> !(a[k] == g[i as int] && before[k] == LetterState::R),
                    found ==> 0 <= hit < 5 && a[hit] == g[i as int] && before[hit]
                        == LetterState::R && answer_state@ == before.update(hit, LetterState::Y)
                        && words_state@[i as int] == LetterState::Y,
                    forall|k: int| 0 <= k < 5 && k != i ==> #[trigger] words_state@[k] == ws_before[k],
                decreases 5 - j,
            {
                if gv[i] == av[j] && answer_state[j] == LetterState::R {
                    words_state[i] = LetterState::Y;
                    answer_state[j] = LetterState::Y;
                    found = true;
                    proof {
                        hit = j as int;
                    }
                }
                j += 1;
            }
            proof {
                lemma_marks_bounded(g, a, before, g[i as int]);
                assert forall|c: char|
                    #[trigger] yellow_marks(answer_state@, a, c) == min_nat(
                        misplaced_before(g, a, c, i + 1),
                        unmatched_in_answer(g, a, c),
                    ) by {
                    lemma_misplaced_next(g, a, c, i as int);
                    lemma_marks_bounded(g, a, before, c);
                    if found {
                        lemma_marks_after_hit(before, a, hit, c);
                    }
                }
            }
        } else {
            proof {
                assert forall|c: char|
                    #[trigger] yellow_marks(answer_state@, a, c) == min_nat(
                        misplaced_before(g, a, c, i + 1),
                        unmatched_in_answer(g, a, c),
                    ) by {
                    lemma_misplaced_next(g, a, c, i as int);
                    lemma_marks_bounded(g, a, before, c);
                }
            }
        }
        i += 1;
    }
    proof {
        assert(words_state@ =~= colors(g, a));
    }
    words_state
}


/// How many yellow `c`s the colors `s` of guess `g` show before position `i`.
pub open spec fn yellows_before(g: Seq<char>, s: Seq<LetterState>, c: char, i: int) -> nat {
    count5(i, |k: int| s[k] == LetterState::Y && g[k] == c)
}

/// Counting yellows one position further.
pub proof fn lemma_yellows_step(g: Seq<char>, s: Seq<LetterState>, c: char, i: int)
    requires
        0 <= i < 5,
    ensures
        yellows_before(g, s, c, i + 1) == yellows_before(g, s, c, i) + ind(
            s[i] == LetterState::Y && g[i] == c,
        ),
        yellows_before(g, s, c, i + 1) <= yellows_before(g, s, c, 5),
        yellows_before(g, s, c, 0) == 0,
{
}

/// The yellow `c`s of a judged guess are its out-of-place `c`s, as far
/// as the answer has unmatched `c`s.
pub proof fn lemma_yellows_of_colors(g: Seq<char>, w: Seq<char>, c: char, i: int)
    requires
        0 <= i <= 5,
    ensures
        yellows_before(g, colors(g, w), c, i) == min_nat(
            misplaced_before(g, w, c, i),
            unmatched_in_answer(g, w, c),
        ),
    decreases i,
{
    let s = colors(g, w);
    lemma_misplaced_next(g, w, c, 0);
    lemma_yellows_step(g, s, c, 0);
    if i > 0 {
        lemma_yellows_of_colors(g, w, c, i - 1);
        lemma_misplaced_next(g, w, c, i - 1);
        lemma_yellows_step(g, s, c, i - 1);
        assert(s[i - 1] == color_at(g, w, i - 1));
    }
}


/// A guess is all green exactly when its first five letters are the answer's.
pub proof fn lemma_all_green_iff_same(g: Seq<char>, a: Seq<char>)
    requires
        g.len() >= 5,
        a.len() >= 5,
    ensures
        (forall|i: int| 0 <= i < 5 ==> #[trigger] colors(g, a)[i] == LetterState::G) <==> g.take(
            5,
        ) == a.take(5),
{
    if g.take(5) == a.take(5) {
        assert forall|i: int| 0 <= i < 5 implies #[trigger] colors(g, a)[i] == LetterState::G by {
            assert(g.take(5)[i] == a.take(5)[i]);
        }
    }
    if forall|i: int| 0 <= i < 5 ==> #[trigger] colors(g, a)[i] == LetterState::G {
        assert forall|i: int| 0 <= i < 5 implies g.take(5)[i] == a.take(5)[i] by {
            assert(colors(g, a)[i] == LetterState::G);
        }
        assert(g.take(5) =~= a.take(5));
    }
}

/// How many positions outside the greens of `s` are already marked in
/// `used` and hold letter `c` of `w`.
pub open spec fn taken(used: Seq<bool>, s: Seq<LetterState>, w: Seq<char>, c: char) -> nat {
    count5(5, |k: int| used[k] && s[k] != LetterState::G && w[k] == c)
}

/// Marking one more position outside the greens counts it once, for its letter.
pub proof fn lemma_taken_after(used: Seq<bool>, s: Seq<LetterState>, w: Seq<char>, j: int, c: char)
    requires
        used.len() == 5,
        0 <= j < 5,
        !used[j],
        s[j] != LetterState::G,
    ensures
        taken(used.update(j, true), s, w, c) == taken(used, s, w, c) + ind(w[j] == c),
{
}

/// How many of the five colors are `st`.
pub open spec fn count_color(s: Seq<LetterState>, st: LetterState) -> nat {
    count5(5, |i: int| s[i] == st)
}

/// How many of the five colors are not red.
pub open spec fn count_not_red(s: Seq<LetterState>) -> nat {
    count5(5, |i: int| s[i] != LetterState::R)
}

/// Which occurrence (counted from 0) of its letter among the out-of-place
/// letters of `g` position `i` is.
spec fn occurrence(g: Seq<char>, a: Seq<char>, i: int) -> nat {
    misplaced_before(g, a, g[i], i)
}

/// Out-of-place position `i` of `g` and out-of-place position `j` of `a`
/// hold the same letter, as the same occurrence of it.
#[verifier::opaque]
spec fn paired(g: Seq<char>, a: Seq<char>, i: int, j: int) -> bool {
    g[i] != a[i] && a[j] != g[j] && g[i] == a[j] && occurrence(g, a, i) == occurrence(a, g, j)
}

/// How many out-of-place positions of `a` position `i` of `g` is paired with.
spec fn row(g: Seq<char>, a: Seq<char>, i: int) -> nat {
    ind(paired(g, a, i, 0)) + ind(paired(g, a, i, 1)) + ind(paired(g, a, i, 2)) + ind(
        paired(g, a, i, 3),
    ) + ind(paired(g, a, i, 4))
}

/// How many pairs of out-of-place positions the two words form.
spec fn pair_count(g: Seq<char>, a: Seq<char>) -> nat {
    row(g, a, 0) + row(g, a, 1) + row(g, a, 2) + row(g, a, 3) + row(g, a, 4)
}

/// Among the out-of-place `c`s of `a`, exactly one is occurrence `r`, when
/// there are more than `r` of them.
proof fn lemma_one_occurrence(a: Seq<char>, g: Seq<char>, c: char, r: nat)
    ensures
        count5(
            5,
            |j: int| a[j] == c && a[j] != g[j] && misplaced_before(a, g, c, j) == r,
        ) == ind(r < misplaced_before(a, g, c, 5)),
{
}

/// A position of the guess is paired with one position of the answer when
/// it is yellow, and with none otherwise.
proof fn lemma_row_is_yellow(g: Seq<char>, a: Seq<char>, i: int)
    requires
        0 <= i < 5,
    ensures
        row(g, a, i) == ind(colors(g, a)[i] == LetterState::Y),
{
    reveal(paired);
    let c = g[i];
    let r = occurrence(g, a, i);
    assert(colors(g, a)[i] == color_at(g, a, i));
    if g[i] != a[i] {
        lemma_one_occurrence(a, g, c, r);
        assert(unmatched_in_answer(g, a, c) == misplaced_before(a, g, c, 5));
        assert forall|j: int| 0 <= j < 5 implies paired(g, a, i, j) == (a[j] == c && a[j] != g[j]
            && misplaced_before(a, g, c, j) == r) by {}
        assert(row(g, a, i) == count5(
            5,
            |j: int| a[j] == c && a[j] != g[j] && misplaced_before(a, g, c, j) == r,
        ));
    } else {
        assert forall|j: int| 0 <= j < 5 implies !paired(g, a, i, j) by {}
    }
}

/// Pairing does not depend on which word is the guess.
proof fn lemma_swap(g: Seq<char>, a: Seq<char>, i: int, j: int)
    ensures
        paired(g, a, i, j) == paired(a, g, j, i),
{
    reveal(paired);
}

/// How many out-of-place positions of `g` position `j` of `a` is paired with.
spec fn column(g: Seq<char>, a: Seq<char>, j: int) -> nat {
    ind(paired(g, a, 0, j)) + ind(paired(g, a, 1, j)) + ind(paired(g, a, 2, j)) + ind(
        paired(g, a, 3, j),
    ) + ind(paired(g, a, 4, j))
}

proof fn lemma_row_is_column(g: Seq<char>, a: Seq<char>, j: int)
    ensures
        row(a, g, j) == column(g, a, j),
{
    lemma_swap(g, a, 0, j);
    lemma_swap(g, a, 1, j);
    lemma_swap(g, a, 2, j);
    lemma_swap(g, a, 3, j);
    lemma_swap(g, a, 4, j);
}

proof fn lemma_rows_are_columns(g: Seq<char>, a: Seq<char>)
    ensures
        pair_count(g, a) == column(g, a, 0) + column(g, a, 1) + column(g, a, 2) + column(g, a, 3)
            + column(g, a, 4),
{
}

/// The number of pairs does not depend on which word is the guess.
proof fn lemma_pair_count_symmetric(g: Seq<char>, a: Seq<char>)
    ensures
        pair_count(g, a) == pair_count(a, g),
{
    lemma_rows_are_columns(g, a);
    lemma_row_is_column(g, a, 0);
    lemma_row_is_column(g, a, 1);
    lemma_row_is_column(g, a, 2);
    lemma_row_is_column(g, a, 3);
    lemma_row_is_column(g, a, 4);
}

proof fn lemma_split_not_red(s: Seq<LetterState>)
    requires
        forall|i: int| 0 <= i < 5 ==> #[trigger] s[i] != LetterState::X,
    ensures
        count_not_red(s) == count_color(s, LetterState::G) + count_color(s, LetterState::Y),
{
}

proof fn lemma_yellow_pairs(s: Seq<LetterState>, g: Seq<char>, a: Seq<char>)
    requires
        forall|i: int| 0 <= i < 5 ==> row(g, a, i) == ind(#[trigger] s[i] == LetterState::Y),
    ensures
        count_color(s, LetterState::Y) == pair_count(g, a),
{
    assert(row(g, a, 0) == ind(s[0] == LetterState::Y));
    assert(row(g, a, 1) == ind(s[1] == LetterState::Y));
    assert(row(g, a, 2) == ind(s[2] == LetterState::Y));
    assert(row(g, a, 3) == ind(s[3] == LetterState::Y));
    assert(row(g, a, 4) == ind(s[4] == LetterState::Y));
}

proof fn lemma_green_places(s: Seq<LetterState>, g: Seq<char>, a: Seq<char>)
    requires
        forall|i: int| 0 <= i < 5 ==> (#[trigger] s[i] == LetterState::G) == (g[i] == a[i]),
    ensures
        count_color(s, LetterState::G) == count5(5, |i: int| g[i] == a[i]),
{
}

proof fn lemma_colors_facts(g: Seq<char>, a: Seq<char>)
    ensures
        forall|i: int|
            0 <= i < 5 ==> (#[trigger] colors(g, a)[i] == LetterState::G) == (g[i] == a[i])
                && colors(g, a)[i] != LetterState::X,
        forall|i: int|
            0 <= i < 5 ==> row(g, a, i) == ind(#[trigger] colors(g, a)[i] == LetterState::Y),
{
    assert forall|i: int| 0 <= i < 5 implies (#[trigger] colors(g, a)[i] == LetterState::G) == (
    g[i] == a[i]) && colors(g, a)[i] != LetterState::X by {
        assert(colors(g, a)[i] == color_at(g, a, i));
    }
    assert forall|i: int| 0 <= i < 5 implies row(g, a, i) == ind(
        #[trigger] colors(g, a)[i] == LetterState::Y,
    ) by {
        lemma_row_is_yellow(g, a, i);
    }
}

/// Swapping guess and answer keeps the number of greens and the number of
/// letters that are not red (the letters the two words share, counted with
/// multiplicity).
pub proof fn lemma_judge_symmetric(g: Seq<char>, a: Seq<char>)
    ensures
        count_color(colors(g, a), LetterState::G) == count_color(colors(a, g), LetterState::G),
        count_not_red(colors(g, a)) == count_not_red(colors(a, g)),
{
    lemma_colors_facts(g, a);
    lemma_colors_facts(a, g);
    lemma_split_not_red(colors(g, a));
    lemma_split_not_red(colors(a, g));
    lemma_yellow_pairs(colors(g, a), g, a);
    lemma_yellow_pairs(colors(a, g), a, g);
    lemma_green_places(colors(g, a), g, a);
    lemma_green_places(colors(a, g), a, g);
    lemma_pair_count_symmetric(g, a);
    assert(count5(5, |i: int| g[i] == a[i]) == count5(5, |i: int| a[i] == g[i]));
}

} // verus!
