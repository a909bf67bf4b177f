use vstd::prelude::*;
use rand::seq::SliceRandom;
use rand::Rng;
use rand::SeedableRng;
use crate::text::{
    lex_lt, words_of, trimmed, is_ascii_letter, trim, is_letter, contains_word, str_lt, lemma_lex_transitive, lemma_lex_total,
};

verus! {

/// The words are in strictly increasing order.
pub open spec fn sorted_words(s: Seq<Seq<char>>) -> bool {
    forall|i: int, j: int| 0 <= i < j < s.len() ==> lex_lt(#[trigger] s[i], #[trigger] s[j])
}

/// A line of a word list file holds, once trimmed, exactly five ASCII letters.
pub open spec fn is_word_line(w: Seq<char>) -> bool {
    &&& trimmed(w).len() == 5
    &&& forall|i: int| 0 <= i < 5 ==> is_ascii_letter(#[trigger] trimmed(w)[i])
}

/// Where word `w` belongs in a sorted list: the number of words before it.
pub fn word_position(list: &Vec<String>, w: &str) -> (p: usize)
    requires
        sorted_words(words_of(list@)),
    ensures
        p <= list@.len(),
        forall|i: int| 0 <= i < p ==> lex_lt(#[trigger] words_of(list@)[i], w@),
        forall|i: int| p <= i < list@.len() ==> !lex_lt(#[trigger] words_of(list@)[i], w@),
{
    let ghost s = words_of(list@);
    let mut p: usize = 0;
    while p < list.len() && str_lt(list[p].as_str(), w)
        invariant
            p <= list@.len(),
            s == words_of(list@),
            sorted_words(s),
            forall|i: int| 0 <= i < p ==> lex_lt(#[trigger] s[i], w@),
        decreases list@.len() - p,
    {
        p += 1;
    }
    proof {
        if p < list@.len() {
            assert forall|i: int| p <= i < list@.len() implies !lex_lt(#[trigger] s[i], w@) by {
                if i > p && lex_lt(s[i], w@) {
                    assert(lex_lt(s[p as int], s[i]));
                    lemma_lex_transitive(s[p as int], s[i], w@);
                }
            }
        }
    }
    p
}

proof fn lemma_insert_word(s: Seq<Seq<char>>, p: int, w: Seq<char>)
    requires
        sorted_words(s),
        0 <= p <= s.len(),
        forall|i: int| 0 <= i < p ==> lex_lt(#[trigger] s[i], w),
        forall|i: int| p <= i < s.len() ==> !lex_lt(#[trigger] s[i], w),
        !s.contains(w),
    ensures
        sorted_words(s.insert(p, w)),
        forall|x: Seq<char>| #[trigger] s.insert(p, w).contains(x) == (s.contains(x) || x == w),
{
    let s2 = s.insert(p, w);
    assert forall|i: int| p <= i < s.len() implies lex_lt(w, #[trigger] s[i]) by {
        lemma_lex_total(s[i], w);
        assert(s[i] != w);
    }
    assert forall|i: int, j: int| 0 <= i < j < s2.len() implies lex_lt(
        #[trigger] s2[i],
        #[trigger] s2[j],
    ) by {
        if j < p {
        } else if j == p {
        } else if i < p {
            lemma_lex_transitive(s[i], w, s[j - 1]);
        } else if i == p {
        } else {
            assert(lex_lt(s[i - 1], s[j - 1]));
        }
    }
    assert forall|x: Seq<char>| #[trigger] s2.contains(x) == (s.contains(x) || x == w) by {
        if s2.contains(x) {
            let k = choose|k: int| 0 <= k < s2.len() && s2[k] == x;
            if k < p {
                assert(s[k] == x);
            } else if k > p {
                assert(s[k - 1] == x);
            }
        }
        if s.contains(x) {
            let k = choose|k: int| 0 <= k < s.len() && s[k] == x;
            if k < p {
                assert(s2[k] == x);
            } else {
                assert(s2[k + 1] == x);
            }
        }
        if x == w {
            assert(s2[p] == x);
        }
    }
}

/// Takes in one line of a word list file. The line is accepted when,
/// trimmed, it is five ASCII letters, when the line itself is one of the
/// `allowed` words and is not yet in the list; it then goes in its sorted
/// place. Otherwise the list is left as it was and `false` comes back.
pub fn add_word_line(list: &mut Vec<String>, word: String, allowed: &Vec<String>) -> (ok: bool)
    requires
        sorted_words(words_of(old(list)@)),
    ensures
        ok == (is_word_line(word@) && words_of(allowed@).contains(word@) && !words_of(
            old(list)@,
        ).contains(word@)),
        sorted_words(words_of(final(list)@)),
        ok ==> words_of(final(list)@).len() == words_of(old(list)@).len() + 1,
        ok ==> forall|x: Seq<char>|
            #[trigger] words_of(final(list)@).contains(x) == (words_of(old(list)@).contains(x)
                || x == word@),
        !ok ==> final(list)@ == old(list)@,
{
    let t = trim(word.as_str());
    if t.unicode_len() != 5 {
        return false;
    }
    let mut i: usize = 0;
    while i < 5
        invariant
            0 <= i <= 5,
            t@ == trimmed(word@),
            t@.len() == 5,
            sorted_words(words_of(list@)),
            forall|k: int| 0 <= k < i ==> is_ascii_letter(#[trigger] t@[k]),
        decreases 5 - i,
    {
        if !is_letter(t.get_char(i)) {
            return false;
        }
        i += 1;
    }
    if !contains_word(allowed, word.as_str()) {
        return false;
    }
    if contains_word(list, word.as_str()) {
        return false;
    }
    let p = word_position(list, word.as_str());
    let ghost before = words_of(list@);
    proof {
        lemma_insert_word(before, p as int, word@);
    }
    list.insert(p, word);
    assert(words_of(list@) =~= before.insert(p as int, word@));
    true
}

/// A whole word list file is well formed: every line is a word line and
/// one of the `allowed` words, and no line occurs twice.
pub open spec fn valid_word_list(lines: Seq<Seq<char>>, allowed: Seq<Seq<char>>) -> bool {
    &&& forall|i: int|
        0 <= i < lines.len() ==> is_word_line(#[trigger] lines[i]) && allowed.contains(lines[i])
    &&& forall|i: int, j: int| 0 <= i < j < lines.len() ==> #[trigger] lines[i] != #[trigger] lines[j]
}

/// Builds a word list from the lines of a file, each line going through
/// `add_word_line`. When the lines form a valid word list the result is
/// their words, sorted, each once; otherwise it is `None`.
pub fn load_word_list(lines: &Vec<String>, allowed: &Vec<String>) -> (r: Option<Vec<String>>)
    ensures
        r is Some <==> valid_word_list(words_of(lines@), words_of(allowed@)),
        r is Some ==> sorted_words(words_of(r->0@)) && r->0@.len() == lines@.len() && forall|
            x: Seq<char>,
        | #[trigger] words_of(r->0@).contains(x) == words_of(lines@).contains(x),
{
    let ghost ls = words_of(lines@);
    let ghost al = words_of(allowed@);
    let mut list: Vec<String> = Vec::new();
    let mut i: usize = 0;
    while i < lines.len()
        invariant
            i <= lines@.len(),
            ls == words_of(lines@),
            al == words_of(allowed@),
            sorted_words(words_of(list@)),
            list@.len() == i,
            forall|x: Seq<char>| #[trigger] words_of(list@).contains(x) == ls.take(i as int).contains(x),
            valid_word_list(ls.take(i as int), al),
        decreases lines@.len() - i,
    {
        let ghost before = words_of(list@);
        let line = lines[i].clone();
        assert(line@ == ls[i as int]);
        if !add_word_line(&mut list, line, allowed) {
            proof {
                if is_word_line(ls[i as int]) && al.contains(ls[i as int]) {
                    assert(ls.take(i as int).contains(ls[i as int]));
                    let k = choose|k: int| 0 <= k < i && ls.take(i as int)[k] == ls[i as int];
                    assert(ls[k] == ls[i as int]);
                }
            }
            return None;
        }
        proof {
            let t = ls.take(i + 1);
            assert(t =~= ls.take(i as int).push(ls[i as int]));
            assert forall|x: Seq<char>| #[trigger] words_of(list@).contains(x) == t.contains(x) by {
                if t.contains(x) {
                    let k = choose|k: int| 0 <= k < t.len() && t[k] == x;
                    if k < i {
                        assert(ls.take(i as int)[k] == x);
                    }
                }
                if ls.take(i as int).contains(x) {
                    let k = choose|k: int| 0 <= k < i && ls.take(i as int)[k] == x;
                    assert(t[k] == x);
                }
                if x == ls[i as int] {
                    assert(t[i as int] == x);
                }
            }
            assert forall|a: int, b: int| 0 <= a < b < t.len() implies #[trigger] t[a] != #[trigger] t[b] by {
                if b == i {
                    assert(ls.take(i as int)[a] == t[a]);
                    assert(ls.take(i as int).contains(t[a]));
                } else {
                    assert(ls.take(i as int)[a] == t[a]);
                    assert(ls.take(i as int)[b] == t[b]);
                }
            }
            assert forall|a: int| 0 <= a < t.len() implies is_word_line(#[trigger] t[a]) && al.contains(t[a]) by {
                if a < i {
                    assert(ls.take(i as int)[a] == t[a]);
                }
            }
        }
        i += 1;
    }
    assert(ls.take(lines@.len() as int) =~= ls);
    Some(list)
}

/// What `rand`'s `StdRng` seeded with `seed` makes of the sequence `v` when
/// it shuffles it.
pub uninterp spec fn seeded_shuffle(seed: u64, v: Seq<usize>) -> Seq<usize>;

/// `SliceRandom::shuffle` with a `StdRng` built by `seed_from_u64(seed)`.
/// The shuffle only swaps elements, so the result is a permutation of `v`;
/// which permutation is the named result `seeded_shuffle`, a function of
/// the seed and of `v`.
#[verifier::external_body]
fn shuffle_with_seed(v: &mut Vec<usize>, seed: u64)
    ensures
        final(v)@ == seeded_shuffle(seed, old(v)@),
        final(v)@.to_multiset() == old(v)@.to_multiset(),
{
    let mut rng = rand::rngs::StdRng::seed_from_u64(seed);
    v.shuffle(&mut rng);
}

/// The sequence `0, 1, ..., n - 1`.
pub open spec fn upto(n: usize) -> Seq<usize> {
    Seq::new(n as nat, |i: int| i as usize)
}

/// The index into the final word list of the answer of day `d` (counted
/// from 1) for seed `s`: the `d`-th entry of the indices `0..n` shuffled
/// with that seed. Different days give different answers.
pub fn ans(d: usize, s: u64, final_set: &Vec<String>) -> (r: usize)
    requires
        1 <= d <= final_set@.len(),
    ensures
        r == seeded_shuffle(s, upto(final_set@.len() as usize))[d - 1],
        r < final_set@.len(),
        forall|i: int|
            0 <= i < final_set@.len() && i != d - 1 ==> #[trigger] seeded_shuffle(
                s,
                upto(final_set@.len() as usize),
            )[i] != r,
{
    let n = final_set.len();
    let mut answer_vec: Vec<usize> = Vec::new();
    let mut i: usize = 0;
    while i < n
        invariant
            n == final_set@.len(),
            i <= n,
            answer_vec@ == upto(i),
        decreases n - i,
    {
        answer_vec.push(i);
        assert(answer_vec@ =~= upto((i + 1) as usize));
        i += 1;
    }
    let ghost before = answer_vec@;
    proof {
        assert(before.no_duplicates());
        before.lemma_multiset_has_no_duplicates();
    }
    shuffle_with_seed(&mut answer_vec, s);
    proof {
        let after = answer_vec@;
        broadcast use vstd::seq_lib::group_to_multiset_ensures;
        assert(after.to_multiset().len() == before.to_multiset().len());
        assert(after.len() == n);
        after.lemma_multiset_has_no_duplicates_conv();
        assert(after.to_multiset().count(after[d - 1]) > 0);
        assert(before.contains(after[d - 1]));
    }
    answer_vec[d - 1]
}

/// `rand::thread_rng().gen_range(0..n)`: some index below `n`, drawn at
/// random; nothing more is known of it.
#[verifier::external_body]
pub fn random_index(n: usize) -> (r: usize)
    requires
        n > 0,
    ensures
        r < n,
{
    rand::thread_rng().gen_range(0..n)
}

} // verus!
