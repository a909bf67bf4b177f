use vstd::prelude::*;
use crate::text::{
    words_of, contains_word, str_eq,
    lex_lt, lower, ascii_lowercase, str_lt, lemma_lex_irreflexive, lemma_lex_asymmetric,
    lemma_lex_transitive, lemma_lex_total,
};

verus! {

/// The plain view of a list of (word, count) entries.
pub open spec fn entries_view(v: Seq<(String, u32)>) -> Seq<(Seq<char>, u32)> {
    v.map_values(|e: (String, u32)| (e.0@, e.1))
}

/// The words of the entries are in strictly increasing order.
pub open spec fn keys_sorted(e: Seq<(Seq<char>, u32)>) -> bool {
    forall|i: int, j: int| 0 <= i < j < e.len() ==> lex_lt(#[trigger] e[i].0, #[trigger] e[j].0)
}

/// Word `k` has an entry.
pub open spec fn has_key(e: Seq<(Seq<char>, u32)>, k: Seq<char>) -> bool {
    exists|i: int| 0 <= i < e.len() && #[trigger] e[i].0 == k
}

/// The count recorded for word `k`, 0 where there is none.
pub open spec fn count_in(e: Seq<(Seq<char>, u32)>, k: Seq<char>) -> nat {
    if has_key(e, k) {
        e[choose|i: int| 0 <= i < e.len() && #[trigger] e[i].0 == k].1 as nat
    } else {
        0
    }
}

/// In sorted entries, the count of the word at position `i` is the count stored there.
pub proof fn lemma_count_at(e: Seq<(Seq<char>, u32)>, i: int)
    requires
        keys_sorted(e),
        0 <= i < e.len(),
    ensures
        count_in(e, e[i].0) == e[i].1,
{
    let k = e[i].0;
    assert(has_key(e, k));
    let j = choose|j: int| 0 <= j < e.len() && #[trigger] e[j].0 == k;
    lemma_lex_irreflexive(k);
    if j < i {
        assert(lex_lt(e[j].0, e[i].0));
    } else if j > i {
        assert(lex_lt(e[i].0, e[j].0));
    }
    assert(j == i);
}

/// A copy of a list of (word, count) entries.
pub fn copy_entries(v: &Vec<(String, u32)>) -> (r: Vec<(String, u32)>)
    ensures
        entries_view(r@) == entries_view(v@),
{
    let mut r: Vec<(String, u32)> = Vec::new();
    let mut i: usize = 0;
    while i < v.len()
        invariant
            0 <= i <= v@.len(),
            entries_view(r@) == entries_view(v@.take(i as int)),
        decreases v@.len() - i,
    {
        let w = v[i].0.clone();
        r.push((w, v[i].1));
        assert(entries_view(v@.take(i + 1)) =~= entries_view(v@.take(i as int)).push((v@[i as int].0@, v@[i as int].1)));
        assert(entries_view(r@) =~= entries_view(v@.take(i + 1)));
        i += 1;
    }
    assert(v@.take(v@.len() as int) =~= v@);
    r
}

/// Where word `k` belongs in sorted entries: the number of entries whose
/// word comes before `k`.
pub fn find_position(v: &Vec<(String, u32)>, k: &str) -> (p: usize)
    requires
        keys_sorted(entries_view(v@)),
    ensures
        p <= v@.len(),
        forall|i: int| 0 <= i < p ==> lex_lt(#[trigger] entries_view(v@)[i].0, k@),
        forall|i: int| p <= i < v@.len() ==> !lex_lt(#[trigger] entries_view(v@)[i].0, k@),
{
    let ghost e = entries_view(v@);
    let mut p: usize = 0;
    while p < v.len() && str_lt(v[p].0.as_str(), k)
        invariant
            p <= v@.len(),
            e == entries_view(v@),
            keys_sorted(e),
            forall|i: int| 0 <= i < p ==> lex_lt(#[trigger] e[i].0, k@),
        decreases v@.len() - p,
    {
        p += 1;
    }
    proof {
        if p < v@.len() {
            assert forall|i: int| p <= i < v@.len() implies !lex_lt(#[trigger] e[i].0, k@) by {
                if i > p && lex_lt(e[i].0, k@) {
                    assert(lex_lt(e[p as int].0, e[i].0));
                    lemma_lex_transitive(e[p as int].0, e[i].0, k@);
                }
            }
        }
    }
    p
}

/// Entries differing only in the count at position `p` have the same
/// counts for every other word.
proof fn lemma_count_other_after_update(e: Seq<(Seq<char>, u32)>, p: int, n: u32, k: Seq<char>)
    requires
        keys_sorted(e),
        0 <= p < e.len(),
        k != e[p].0,
    ensures
        keys_sorted(e.update(p, (e[p].0, n))),
        count_in(e.update(p, (e[p].0, n)), k) == count_in(e, k),
        has_key(e.update(p, (e[p].0, n)), k) == has_key(e, k),
{
    let e2 = e.update(p, (e[p].0, n));
    assert(keys_sorted(e2));
    if has_key(e, k) {
        let i = choose|i: int| 0 <= i < e.len() && #[trigger] e[i].0 == k;
        lemma_count_at(e, i);
        assert(e2[i].0 == k);
        lemma_count_at(e2, i);
    }
    if has_key(e2, k) {
        let i = choose|i: int| 0 <= i < e2.len() && #[trigger] e2[i].0 == k;
        assert(e[i].0 == k);
    }
}

/// Inserting a new word where it belongs keeps the entries sorted and
/// leaves the counts of the other words as they were.
proof fn lemma_insert_sorted(e: Seq<(Seq<char>, u32)>, p: int, k: Seq<char>, n: u32)
    requires
        keys_sorted(e),
        0 <= p <= e.len(),
        forall|i: int| 0 <= i < p ==> lex_lt(#[trigger] e[i].0, k),
        forall|i: int| p <= i < e.len() ==> !lex_lt(#[trigger] e[i].0, k),
        p < e.len() ==> e[p].0 != k,
    ensures
        keys_sorted(e.insert(p, (k, n))),
        !has_key(e, k),
        count_in(e, k) == 0,
        count_in(e.insert(p, (k, n)), k) == n,
        forall|k2: Seq<char>|
            k2 != k ==> count_in(e.insert(p, (k, n)), k2) == count_in(e, k2) && has_key(
                e.insert(p, (k, n)),
                k2,
            ) == has_key(e, k2),
        has_key(e.insert(p, (k, n)), k),
{
    let e2 = e.insert(p, (k, n));
    assert forall|i: int| p <= i < e.len() implies lex_lt(k, #[trigger] e[i].0) by {
        lemma_lex_total(e[p].0, k);
        if i > p {
            assert(lex_lt(e[p].0, e[i].0));
            lemma_lex_transitive(k, e[p].0, e[i].0);
        }
    }
    assert forall|i: int, j: int| 0 <= i < j < e2.len() implies lex_lt(
        #[trigger] e2[i].0,
        #[trigger] e2[j].0,
    ) by {
        if j < p {
        } else if j == p {
        } else if i < p {
            lemma_lex_transitive(e[i].0, k, e[j - 1].0);
        } else if i == p {
        } else {
            assert(lex_lt(e[i - 1].0, e[j - 1].0));
        }
    }
    assert(!has_key(e, k)) by {
        if has_key(e, k) {
            let i = choose|i: int| 0 <= i < e.len() && #[trigger] e[i].0 == k;
            lemma_lex_irreflexive(k);
            if i < p {
                assert(lex_lt(e[i].0, k));
            } else {
                assert(lex_lt(k, e[i].0));
            }
        }
    }
    assert(e2[p].0 == k);
    lemma_count_at(e2, p);
    assert forall|k2: Seq<char>| k2 != k implies count_in(e2, k2) == count_in(e, k2) && has_key(
        e2,
        k2,
    ) == has_key(e, k2) by {
        if has_key(e, k2) {
            let i = choose|i: int| 0 <= i < e.len() && #[trigger] e[i].0 == k2;
            lemma_count_at(e, i);
            let i2 = if i < p {
                i
            } else {
                i + 1
            };
            assert(e2[i2] == e[i]);
            lemma_count_at(e2, i2);
        }
        if has_key(e2, k2) {
            let i = choose|i: int| 0 <= i < e2.len() && #[trigger] e2[i].0 == k2;
            if i < p {
                assert(e[i].0 == k2);
            } else {
                assert(i != p);
                assert(e[i - 1].0 == k2);
            }
        }
    }
}

/// Entry `a` ranks above entry `b`: it was guessed more often, or as often
/// and its word sorts first.
pub open spec fn outranks(a: (Seq<char>, u32), b: (Seq<char>, u32)) -> bool {
    a.1 > b.1 || (a.1 == b.1 && lex_lt(a.0, b.0))
}

/// `r` lists the first `min(5, e.len())` entries of `e` from the highest
/// ranked down.
pub open spec fn is_top_five(r: Seq<(Seq<char>, u32)>, e: Seq<(Seq<char>, u32)>) -> bool {
    &&& r.len() == (if e.len() < 5 {
        e.len()
    } else {
        5
    })
    &&& forall|i: int| 0 <= i < r.len() ==> e.contains(#[trigger] r[i])
    &&& forall|i: int, j: int| 0 <= i < j < r.len() ==> outranks(#[trigger] r[i], #[trigger] r[j])
    &&& forall|x: (Seq<char>, u32)|
        #[trigger] e.contains(x) ==> r.contains(x) || forall|i: int|
            0 <= i < r.len() ==> outranks(#[trigger] r[i], x)
}

/// The index of the highest ranked entry of non-empty sorted entries.
fn best_entry(v: &Vec<(String, u32)>) -> (b: usize)
    requires
        v@.len() > 0,
        keys_sorted(entries_view(v@)),
    ensures
        b < v@.len(),
        forall|u: int|
            0 <= u < v@.len() && u != b ==> outranks(
                entries_view(v@)[b as int],
                #[trigger] entries_view(v@)[u],
            ),
{
    let ghost e = entries_view(v@);
    let mut best: usize = 0;
    let mut t: usize = 1;
    while t < v.len()
        invariant
            e == entries_view(v@),
            keys_sorted(e),
            best < t <= v@.len(),
            forall|u: int| 0 <= u < t && u != best ==> outranks(e[best as int], #[trigger] e[u]),
        decreases v@.len() - t,
    {
        if v[t].1 > v[best].1 {
            best = t;
        } else {
            assert(lex_lt(e[best as int].0, e[t as int].0));
        }
        t += 1;
    }
    best
}

/// Statistics of the games played: wins, losses, the number of guesses in
/// won games, the answers used so far and how often each word was guessed.
pub struct GameData {
    total_win: u32,
    total_lose: u32,
    total_tries: u32,
    used_answer: Vec<String>,
    words_frequency: Vec<(String, u32)>,
}

impl GameData {
    pub closed spec fn wins(&self) -> nat {
        self.total_win as nat
    }

    pub closed spec fn losses(&self) -> nat {
        self.total_lose as nat
    }

    pub closed spec fn tries(&self) -> nat {
        self.total_tries as nat
    }

    /// The answers used so far.
    pub closed spec fn used(&self) -> Seq<Seq<char>> {
        words_of(self.used_answer@)
    }

    /// `after` is `self` with answer `w` recorded as used, and nothing else changed.
    pub open spec fn with_used(&self, after: &GameData, w: Seq<char>) -> bool {
        &&& after.used() == self.used().push(w)
        &&& after.wins() == self.wins()
        &&& after.losses() == self.losses()
        &&& after.tries() == self.tries()
        &&& after.frequencies() == self.frequencies()
    }

    /// `after` is `self` with one more guess of word `k` counted, and nothing else changed.
    pub open spec fn with_guess(&self, after: &GameData, k: Seq<char>) -> bool {
        &&& after.wf()
        &&& count_in(after.frequencies(), k) == count_in(self.frequencies(), k) + 1
        &&& forall|k2: Seq<char>|
            k2 != k ==> count_in(after.frequencies(), k2) == count_in(self.frequencies(), k2)
        &&& forall|k2: Seq<char>|
            has_key(after.frequencies(), k2) == (has_key(self.frequencies(), k2) || k2 == k)
        &&& after.wins() == self.wins()
        &&& after.losses() == self.losses()
        &&& after.tries() == self.tries()
        &&& after.used() == self.used()
    }

    /// The answers used so far.
    pub fn used_answer(&self) -> (r: &Vec<String>)
        ensures
            words_of(r@) == self.used(),
    {
        &self.used_answer
    }

    /// Whether `w` is one of the answers used so far.
    pub fn has_used(&self, w: &str) -> (r: bool)
        ensures
            r == self.used().contains(w@),
    {
        contains_word(&self.used_answer, w)
    }

    /// The guessed words (in lower case) with their counts, in increasing order of word.
    pub closed spec fn frequencies(&self) -> Seq<(Seq<char>, u32)> {
        entries_view(self.words_frequency@)
    }

    /// The statistics are well formed: the guessed words are kept in
    /// strictly increasing order, so each word has at most one entry.
    pub open spec fn wf(&self) -> bool {
        keys_sorted(self.frequencies())
    }

    /// Empty statistics.
    pub fn new() -> (d: GameData)
        ensures
            d.wf(),
            d.wins() == 0,
            d.losses() == 0,
            d.tries() == 0,
            d.used().len() == 0,
            d.frequencies().len() == 0,
    {
        let ghost e = Seq::<String>::empty();
        let d = GameData {
            total_win: 0,
            total_lose: 0,
            total_tries: 0,
            used_answer: Vec::new(),
            words_frequency: Vec::new(),
        };
        assert(d.frequencies() =~= Seq::<(Seq<char>, u32)>::empty());
        assert(d.used() =~= Seq::<Seq<char>>::empty());
        d
    }

    /// Counts one more win.
    pub fn add_win(&mut self)
        requires
            old(self).wins() < u32::MAX,
        ensures
            final(self).wins() == old(self).wins() + 1,
            final(self).losses() == old(self).losses(),
            final(self).tries() == old(self).tries(),
            final(self).used() == old(self).used(),
            final(self).frequencies() == old(self).frequencies(),
    {
        self.total_win += 1;
    }

    /// Counts one more loss.
    pub fn add_lose(&mut self)
        requires
            old(self).losses() < u32::MAX,
        ensures
            final(self).losses() == old(self).losses() + 1,
            final(self).wins() == old(self).wins(),
            final(self).tries() == old(self).tries(),
            final(self).used() == old(self).used(),
            final(self).frequencies() == old(self).frequencies(),
    {
        self.total_lose += 1;
    }

    /// Adds the guesses of a won game to the total.
    pub fn add_tries(&mut self, tries: u32)
        requires
            old(self).tries() + tries <= u32::MAX,
        ensures
            final(self).tries() == old(self).tries() + tries,
            final(self).wins() == old(self).wins(),
            final(self).losses() == old(self).losses(),
            final(self).used() == old(self).used(),
            final(self).frequencies() == old(self).frequencies(),
    {
        self.total_tries += tries;
    }

    /// Records an answer as used.
    pub fn push_used_answer(&mut self, answer: &String)
        ensures
            final(self).used() == old(self).used().push(answer@),
            final(self).wins() == old(self).wins(),
            final(self).losses() == old(self).losses(),
            final(self).tries() == old(self).tries(),
            final(self).frequencies() == old(self).frequencies(),
    {
        let a = answer.clone();
        self.used_answer.push(a);
        assert(self.used_answer@.map_values(|s: String| s@) =~= old(self).used_answer@.map_values(
            |s: String| s@,
        ).push(answer@));
    }

    /// Counts one more guess of `guess`, recorded in lower case.
    pub fn insert_word_frequency(&mut self, guess: &String)
        requires
            old(self).wf(),
            count_in(old(self).frequencies(), lower(guess@)) < u32::MAX,
        ensures
            old(self).with_guess(final(self), lower(guess@)),
    {
        let key = ascii_lowercase(guess.as_str());
        let ghost k = key@;
        let ghost e = self.frequencies();
        let p = find_position(&self.words_frequency, key.as_str());
        if p < self.words_frequency.len() && self.words_frequency[p].0 == key {
            let n = self.words_frequency[p].1;
            proof {
                lemma_count_at(e, p as int);
                assert(e[p as int].0 == k);
            }
            let w = self.words_frequency[p].0.clone();
            self.words_frequency.set(p, (w, n + 1));
            proof {
                assert(self.frequencies() =~= e.update(p as int, (k, (n + 1) as u32)));
                lemma_count_at(self.frequencies(), p as int);
                assert forall|k2: Seq<char>| k2 != k implies count_in(self.frequencies(), k2)
                    == count_in(e, k2) && has_key(self.frequencies(), k2) == has_key(e, k2) by {
                    lemma_count_other_after_update(e, p as int, (n + 1) as u32, k2);
                }
                assert(has_key(self.frequencies(), k)) by {
                    assert(self.frequencies()[p as int].0 == k);
                }
            }
        } else {
            proof {
                assert(p < e.len() ==> e[p as int].0 != k);
                lemma_insert_sorted(e, p as int, k, 1);
            }
            self.words_frequency.insert(p, (key, 1));
            proof {
                assert(self.frequencies() =~= e.insert(p as int, (k, 1u32)));
            }
        }
    }

    /// The five most guessed words with their counts, most guessed first;
    /// among words guessed equally often, the one that sorts first comes
    /// first. Fewer when fewer words were guessed.
    pub fn top_words(&self) -> (r: Vec<(String, u32)>)
        requires
            self.wf(),
        ensures
            is_top_five(entries_view(r@), self.frequencies()),
    {
        let ghost e = self.frequencies();
        let mut rest = copy_entries(&self.words_frequency);
        let mut res: Vec<(String, u32)> = Vec::new();
        while res.len() < 5 && rest.len() > 0
            invariant
                e == self.frequencies(),
                keys_sorted(entries_view(rest@)),
                res@.len() <= 5,
                res@.len() + rest@.len() == e.len(),
                forall|y: (Seq<char>, u32)| #[trigger]
                    entries_view(rest@).contains(y) ==> e.contains(y),
                forall|i: int| 0 <= i < res@.len() ==> e.contains(#[trigger] entries_view(res@)[i]),
                forall|x: (Seq<char>, u32)|
                    #[trigger] e.contains(x) ==> entries_view(res@).contains(x) || entries_view(
                        rest@,
                    ).contains(x),
                forall|i: int, y: (Seq<char>, u32)|
                    0 <= i < res@.len() && #[trigger] entries_view(rest@).contains(y) ==> outranks(
                        #[trigger] entries_view(res@)[i],
                        y,
                    ),
                forall|i: int, j: int|
                    0 <= i < j < res@.len() ==> outranks(
                        #[trigger] entries_view(res@)[i],
                        #[trigger] entries_view(res@)[j],
                    ),
            decreases rest@.len(),
        {
            let ghost rv = entries_view(rest@);
            let ghost r0 = entries_view(res@);
            let b = best_entry(&rest);
            let ghost top = rv[b as int];
            let entry = rest.remove(b);
            res.push(entry);
            proof {
                let rv2 = entries_view(rest@);
                let r2 = entries_view(res@);
                assert(rv2 =~= rv.remove(b as int));
                assert(r2 =~= r0.push(top));
                assert(rv.contains(top));
                assert forall|i: int, j: int| 0 <= i < j < rv2.len() implies lex_lt(
                    #[trigger] rv2[i].0,
                    #[trigger] rv2[j].0,
                ) by {
                    let i0 = if i < b { i } else { i + 1 };
                    let j0 = if j < b { j } else { j + 1 };
                    assert(rv2[i] == rv[i0] && rv2[j] == rv[j0]);
                }
                assert forall|y: (Seq<char>, u32)| #[trigger] rv2.contains(y) implies e.contains(y)
                    && outranks(top, y) && rv.contains(y) by {
                    let k = choose|k: int| 0 <= k < rv2.len() && rv2[k] == y;
                    let k0 = if k < b { k } else { k + 1 };
                    assert(rv[k0] == y);
                    assert(k0 != b);
                    assert(rv.contains(y));
                    assert(e.contains(y));
                    assert(outranks(rv[b as int], rv[k0]));
                }
                assert forall|x: (Seq<char>, u32)| #[trigger] e.contains(x) implies r2.contains(x)
                    || rv2.contains(x) by {
                    if r0.contains(x) {
                        let k = choose|k: int| 0 <= k < r0.len() && r0[k] == x;
                        assert(r2[k] == x);
                    } else if x == top {
                        assert(r2[r0.len() as int] == x);
                    } else {
                        assert(rv.contains(x));
                        let k = choose|k: int| 0 <= k < rv.len() && rv[k] == x;
                        assert(k != b);
                        let k2 = if k < b { k } else { k - 1 };
                        assert(rv2[k2] == x);
                    }
                }
                assert forall|i: int| 0 <= i < r2.len() implies e.contains(#[trigger] r2[i]) by {
                    if i < r0.len() {
                        assert(r2[i] == r0[i]);
                    }
                }
                assert forall|i: int, y: (Seq<char>, u32)|
                    0 <= i < r2.len() && #[trigger] rv2.contains(y) implies outranks(
                    #[trigger] r2[i],
                    y,
                ) by {
                    if i < r0.len() {
                        assert(r2[i] == r0[i]);
                    }
                }
                assert forall|i: int, j: int| 0 <= i < j < r2.len() implies outranks(
                    #[trigger] r2[i],
                    #[trigger] r2[j],
                ) by {
                    assert(r2[i] == r0[i]);
                    if j < r0.len() {
                        assert(r2[j] == r0[j]);
                    }
                }
            }
        }
        res
    }

    /// How often word `w` was counted (0 when never).
    pub fn word_count(&self, w: &str) -> (r: u32)
        requires
            self.wf(),
        ensures
            r == count_in(self.frequencies(), w@),
    {
        let ghost e = self.frequencies();
        let p = find_position(&self.words_frequency, w);
        if p < self.words_frequency.len() && str_eq(self.words_frequency[p].0.as_str(), w) {
            proof {
                lemma_count_at(e, p as int);
            }
            self.words_frequency[p].1
        } else {
            proof {
                if has_key(e, w@) {
                    let i = choose|i: int| 0 <= i < e.len() && #[trigger] e[i].0 == w@;
                    lemma_lex_irreflexive(w@);
                    if i > p as int {
                        assert(lex_lt(e[p as int].0, e[i].0));
                        lemma_lex_total(e[p as int].0, w@);
                        lemma_lex_asymmetric(e[p as int].0, w@);
                    }
                }
            }
            0
        }
    }

    pub fn get_win(&self) -> (r: u32)
        ensures
            r == self.wins(),
    {
        self.total_win
    }

    pub fn get_lose(&self) -> (r: u32)
        ensures
            r == self.losses(),
    {
        self.total_lose
    }

    pub fn get_tries(&self) -> (r: u32)
        ensures
            r == self.tries(),
    {
        self.total_tries
    }

    /// The guessed words with their counts, in increasing order of word.
    pub fn get_words_frequency(&self) -> (r: Vec<(String, u32)>)
        ensures
            entries_view(r@) == self.frequencies(),
    {
        let r = copy_entries(&self.words_frequency);
        r
    }
}

} // verus!
