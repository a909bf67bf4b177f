use vstd::prelude::*;
use crate::feedback::{LetterState, rank};
use crate::text::push_char;

verus! {

broadcast use vstd::array::group_array_axioms;

/// The position of a lower case letter in the alphabet.
pub open spec fn letter_index(c: char) -> int {
    (c as int) - ('a' as int)
}

/// `c` is a lower case ASCII letter.
pub open spec fn is_lower_letter(c: char) -> bool {
    'a' <= c && c <= 'z'
}

/// The higher of two states in the order `X < R < Y < G`.
pub open spec fn max_state(a: LetterState, b: LetterState) -> LetterState {
    if rank(a) < rank(b) {
        b
    } else {
        a
    }
}

/// What position `i` of a guess says about key `k`: its color when the
/// letter there is key `k`, else nothing (`X`).
pub open spec fn hit(g: Seq<char>, s: Seq<LetterState>, k: int, i: int) -> LetterState {
    if letter_index(g[i]) == k {
        s[i]
    } else {
        LetterState::X
    }
}

/// Key `k`, once the first `n` letters of guess `g` with colors `s` are taken in.
pub open spec fn key_after_n(
    old: LetterState,
    g: Seq<char>,
    s: Seq<LetterState>,
    k: int,
    n: nat,
) -> LetterState
    decreases n,
{
    if n == 0 {
        old
    } else {
        max_state(key_after_n(old, g, s, k, (n - 1) as nat), hit(g, s, k, n - 1))
    }
}

/// The keyboard after guess `g` received colors `s`: each key takes the
/// highest of its previous state and the colors its letter received.
pub open spec fn keyboard_after(
    kb: Seq<LetterState>,
    g: Seq<char>,
    s: Seq<LetterState>,
) -> Seq<LetterState> {
    Seq::new(26, |k: int| key_after_n(kb[k], g, s, k, 5))
}

/// A key never loses ground: after a guess it stands at least as high as
/// before and at least as high as every color its letter received, and it
/// is either its old state or one of those colors.
pub proof fn lemma_keyboard_monotone(kb: Seq<LetterState>, g: Seq<char>, s: Seq<LetterState>, k: int)
    requires
        0 <= k < 26,
    ensures
        rank(keyboard_after(kb, g, s)[k]) >= rank(kb[k]),
        forall|i: int|
            0 <= i < 5 && letter_index(g[i]) == k ==> rank(keyboard_after(kb, g, s)[k]) >= rank(
                #[trigger] s[i],
            ),
        keyboard_after(kb, g, s)[k] == kb[k] || exists|i: int|
            0 <= i < 5 && letter_index(g[i]) == k && keyboard_after(kb, g, s)[k] == #[trigger] s[i],
{
    reveal_with_fuel(key_after_n, 6);
}

/// Taking in the same guess twice changes nothing the second time.
pub proof fn lemma_keyboard_idempotent(kb: Seq<LetterState>, g: Seq<char>, s: Seq<LetterState>)
    ensures
        keyboard_after(keyboard_after(kb, g, s), g, s) == keyboard_after(kb, g, s),
{
    reveal_with_fuel(key_after_n, 6);
    assert(keyboard_after(keyboard_after(kb, g, s), g, s) =~= keyboard_after(kb, g, s));
}

spec fn max_rank(a: nat, b: nat) -> nat {
    if a < b {
        b
    } else {
        a
    }
}

/// The highest rank among the colors that guess `g` gave key `k`.
spec fn hits_rank(g: Seq<char>, s: Seq<LetterState>, k: int) -> nat {
    max_rank(
        max_rank(
            max_rank(max_rank(rank(hit(g, s, k, 0)), rank(hit(g, s, k, 1))), rank(hit(g, s, k, 2))),
            rank(hit(g, s, k, 3)),
        ),
        rank(hit(g, s, k, 4)),
    )
}

proof fn lemma_key_rank(old: LetterState, g: Seq<char>, s: Seq<LetterState>, k: int)
    ensures
        rank(key_after_n(old, g, s, k, 5)) == max_rank(rank(old), hits_rank(g, s, k)),
{
    reveal_with_fuel(key_after_n, 6);
}

proof fn lemma_rank_injective(a: LetterState, b: LetterState)
    requires
        rank(a) == rank(b),
    ensures
        a == b,
{
}

/// The keyboard does not depend on the order in which guesses are taken in.
pub proof fn lemma_keyboard_order_free(
    kb: Seq<LetterState>,
    g1: Seq<char>,
    s1: Seq<LetterState>,
    g2: Seq<char>,
    s2: Seq<LetterState>,
)
    ensures
        keyboard_after(keyboard_after(kb, g1, s1), g2, s2) == keyboard_after(
            keyboard_after(kb, g2, s2),
            g1,
            s1,
        ),
{
    let lhs = keyboard_after(keyboard_after(kb, g1, s1), g2, s2);
    let rhs = keyboard_after(keyboard_after(kb, g2, s2), g1, s1);
    assert forall|k: int| 0 <= k < 26 implies lhs[k] == rhs[k] by {
        let a = keyboard_after(kb, g1, s1)[k];
        let b = keyboard_after(kb, g2, s2)[k];
        lemma_key_rank(kb[k], g1, s1, k);
        lemma_key_rank(kb[k], g2, s2, k);
        lemma_key_rank(a, g2, s2, k);
        lemma_key_rank(b, g1, s1, k);
        lemma_rank_injective(lhs[k], rhs[k]);
    }
    assert(lhs =~= rhs);
}

/// The letter `X`, `R`, `Y` or `G` that names a state.
pub open spec fn state_char(s: LetterState) -> char {
    match s {
        LetterState::X => 'X',
        LetterState::R => 'R',
        LetterState::Y => 'Y',
        LetterState::G => 'G',
    }
}

/// The best color each of the 26 letters `a` to `z` has received so far.
pub struct KeyboardState {
    pub keyboard_state: [LetterState; 26],
}

impl KeyboardState {
    /// A keyboard on which no letter has been tried.
    pub fn new() -> (kb: KeyboardState)
        ensures
            forall|k: int| 0 <= k < 26 ==> kb.keyboard_state@[k] == LetterState::X,
    {
        KeyboardState { keyboard_state: [LetterState::X; 26] }
    }

    /// Takes in a guess whose first five letters received `game_state`:
    /// each key keeps the highest color its letter has received.
    pub fn update(&mut self, guess: &String, game_state: &[LetterState; 5])
        requires
            guess@.len() >= 5,
            forall|i: int| 0 <= i < 5 ==> is_lower_letter(#[trigger] guess@[i]),
        ensures
            final(self).keyboard_state@ == keyboard_after(
                old(self).keyboard_state@,
                guess@,
                game_state@,
            ),
    {
        let ghost kb0 = self.keyboard_state@;
        let ghost g = guess@;
        let ghost s = game_state@;
        let mut i: usize = 0;
        while i < 5
            invariant
                0 <= i <= 5,
                g == guess@,
                s == game_state@,
                g.len() >= 5,
                forall|j: int| 0 <= j < 5 ==> is_lower_letter(#[trigger] g[j]),
                forall|k: int|
                    0 <= k < 26 ==> #[trigger] self.keyboard_state@[k] == key_after_n(
                        kb0[k],
                        g,
                        s,
                        k,
                        i as nat,
                    ),
            decreases 5 - i,
        {
            let c = guess.as_str().get_char(i);
            assert(is_lower_letter(g[i as int]));
            let idx = ((c as u32) - ('a' as u32)) as usize;
            assert(idx as int == letter_index(c));
            if self.keyboard_state[idx].rank() < game_state[i].rank() {
                self.keyboard_state[idx] = game_state[i];
            }
            assert forall|k: int| 0 <= k < 26 implies #[trigger] self.keyboard_state@[k]
                == key_after_n(kb0[k], g, s, k, (i + 1) as nat) by {
                assert(hit(g, s, k, i as int) == (if k == idx {
                    s[i as int]
                } else {
                    LetterState::X
                }));
            }
            i += 1;
        }
        assert(self.keyboard_state@ =~= keyboard_after(kb0, g, s));
    }

    /// The keyboard as 26 letters `X`, `R`, `Y`, `G`, one per key from `a` to `z`.
    pub fn to_string(&self) -> (res: String)
        ensures
            res@ == self.keyboard_state@.map_values(|s: LetterState| state_char(s)),
    {
        let mut res = String::new();
        let mut i: usize = 0;
        while i < 26
            invariant
                0 <= i <= 26,
                res@ == self.keyboard_state@.take(i as int).map_values(
                    |s: LetterState| state_char(s),
                ),
            decreases 26 - i,
        {
            let c = match self.keyboard_state[i] {
                LetterState::X => 'X',
                LetterState::R => 'R',
                LetterState::Y => 'Y',
                LetterState::G => 'G',
            };
            push_char(&mut res, c);
            assert(self.keyboard_state@.take(i + 1).map_values(|s: LetterState| state_char(s))
                =~= self.keyboard_state@.take(i as int).map_values(|s: LetterState| state_char(s)).push(c));
            i += 1;
        }
        assert(self.keyboard_state@.take(26) =~= self.keyboard_state@);
        res
    }
}

} // verus!
