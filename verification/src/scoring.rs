//! Letter-by-letter scoring of a guess against a solution.
//!
//! Scoring runs in two passes. The exact pass marks every position
//! where guess and solution agree as `Here` and consumes that solution
//! slot. The presence pass then walks the remaining guess positions
//! left to right; each one claims the first still-unconsumed solution
//! slot (other than its own position) holding the same letter and is
//! marked `Somewhere`, consuming that slot, or is marked `Nowhere` when
//! no such slot is left. A solution slot is consumed at most once, so a
//! letter never scores more often than it occurs in the solution.

use vstd::prelude::*;

use vstd::multiset::Multiset;

use crate::word::{valid_word, Word, WORD_LEN};

verus! {

/// The verdict for one guess position.
#[derive(Copy, Clone, Debug, PartialEq, Eq, Structural)]
pub enum LetterScore {
    /// The guessed letter matches the solution at this position.
    Here,
    /// The guessed letter occurs in the solution at a different,
    /// not-yet-claimed position.
    Somewhere,
    /// The guessed letter has no remaining matching solution position.
    Nowhere,
}

/// The consumption state after the exact pass: slot `j` is consumed
/// exactly when guess and solution agree there.
pub open spec fn exact_used(s: Seq<u8>, g: Seq<u8>) -> Seq<bool> {
    Seq::new(s.len(), |j: int| s[j] == g[j])
}

/// The first solution slot at or after `j` that is unconsumed, is not
/// position `i` itself, and holds the letter `c`.
pub open spec fn find_slot_from(s: Seq<u8>, c: u8, used: Seq<bool>, i: int, j: int) -> Option<int>
    decreases s.len() - j,
{
    if j < 0 || j >= s.len() {
        None
    } else if !used[j] && j != i && s[j] == c {
        Some(j)
    } else {
        find_slot_from(s, c, used, i, j + 1)
    }
}

/// The consumption state of the solution's slots just before the
/// presence pass handles guess position `i`: the exact pass's marks,
/// plus the slots claimed by guess positions before `i`.
pub open spec fn slots_used_before(s: Seq<u8>, g: Seq<u8>, i: int) -> Seq<bool>
    decreases i,
{
    if i <= 0 {
        exact_used(s, g)
    } else {
        let prev = slots_used_before(s, g, i - 1);
        if s[i - 1] == g[i - 1] {
            prev
        } else {
            match find_slot_from(s, g[i - 1], prev, i - 1, 0) {
                Some(j) => prev.update(j, true),
                None => prev,
            }
        }
    }
}

/// The solution slot claimed by guess position `i`: its own position
/// for an exact match, otherwise the first available slot with the
/// guessed letter, if any.
pub open spec fn match_slot(s: Seq<u8>, g: Seq<u8>, i: int) -> Option<int> {
    if s[i] == g[i] {
        Some(i)
    } else {
        find_slot_from(s, g[i], slots_used_before(s, g, i), i, 0)
    }
}

/// The feedback vector for `g` guessed against `s`.
pub open spec fn score_spec(s: Seq<u8>, g: Seq<u8>) -> Seq<LetterScore> {
    Seq::new(
        g.len(),
        |i: int|
            if s[i] == g[i] {
                LetterScore::Here
            } else if match_slot(s, g, i) is Some {
                LetterScore::Somewhere
            } else {
                LetterScore::Nowhere
            },
    )
}

/// A feedback vector reporting an exact match at every position.
pub open spec fn all_here(fb: Seq<LetterScore>) -> bool {
    forall|i: int| 0 <= i < fb.len() ==> fb[i] == LetterScore::Here
}

/// Finds the first unconsumed solution slot other than `i` holding
/// letter `c`, mirroring `find_slot_from` started at slot 0.
fn find_available_slot(solution: &Word, used: &Vec<bool>, c: u8, i: usize) -> (r: Option<usize>)
    requires
        solution.wf(),
        used@.len() == WORD_LEN,
        i < WORD_LEN,
    ensures
        match r {
            Some(j) => j < WORD_LEN && find_slot_from(solution@, c, used@, i as int, 0) == Some(
                j as int,
            ),
            None => find_slot_from(solution@, c, used@, i as int, 0) is None,
        },
{
    let mut j: usize = 0;
    while j < WORD_LEN
        invariant
            j <= WORD_LEN,
            solution.wf(),
            used@.len() == WORD_LEN,
            i < WORD_LEN,
            find_slot_from(solution@, c, used@, i as int, 0) == find_slot_from(
                solution@,
                c,
                used@,
                i as int,
                j as int,
            ),
        decreases WORD_LEN - j,
    {
        if !used[j] && j != i && solution.letter(j) == c {
            return Some(j);
        }
        j = j + 1;
    }
    None
}

/// Scores `guess` against `solution`: the feedback vector of the
/// two-pass, duplicate-aware algorithm, one verdict per guess letter.
pub fn score(solution: &Word, guess: &Word) -> (r: Vec<LetterScore>)
    requires
        solution.wf(),
        guess.wf(),
    ensures
        r@ == score_spec(solution@, guess@),
{
    let mut used: Vec<bool> = Vec::new();
    let mut res: Vec<LetterScore> = Vec::new();
    let mut i: usize = 0;
    while i < WORD_LEN
        invariant
            i <= WORD_LEN,
            solution.wf(),
            guess.wf(),
            used@.len() == i,
            res@.len() == i,
            forall|k: int| 0 <= k < i ==> used@[k] == (solution@[k] == guess@[k]),
            forall|k: int| 0 <= k < i ==> res@[k] == LetterScore::Nowhere,
        decreases WORD_LEN - i,
    {
        used.push(solution.letter(i) == guess.letter(i));
        res.push(LetterScore::Nowhere);
        i = i + 1;
    }
    proof {
        assert(used@ =~= exact_used(solution@, guess@));
    }
    let mut i: usize = 0;
    while i < WORD_LEN
        invariant
            i <= WORD_LEN,
            solution.wf(),
            guess.wf(),
            used@.len() == WORD_LEN,
            res@.len() == WORD_LEN,
            used@ == slots_used_before(solution@, guess@, i as int),
            forall|k: int| 0 <= k < i ==> res@[k] == score_spec(solution@, guess@)[k],
            forall|k: int| i <= k < WORD_LEN ==> res@[k] == LetterScore::Nowhere,
        decreases WORD_LEN - i,
    {
        let gl = guess.letter(i);
        if solution.letter(i) == gl {
            res.set(i, LetterScore::Here);
        } else {
            match find_available_slot(solution, &used, gl, i) {
                Some(j) => {
                    res.set(i, LetterScore::Somewhere);
                    used.set(j, true);
                    proof {
                        assert(used@ =~= slots_used_before(solution@, guess@, i + 1));
                    }
                },
                None => {
                    proof {
                        assert(match_slot(solution@, guess@, i as int) is None);
                    }
                },
            }
        }
        i = i + 1;
    }
    proof {
        assert(res@ =~= score_spec(solution@, guess@));
    }
    res
}

/// True when the feedback reports a win: every slot `Here`.
pub fn feedback_is_win(fb: &Vec<LetterScore>) -> (r: bool)
    ensures
        r == all_here(fb@),
{
    let mut i: usize = 0;
    while i < fb.len()
        invariant
            i <= fb@.len(),
            forall|k: int| 0 <= k < i ==> fb@[k] == LetterScore::Here,
        decreases fb@.len() - i,
    {
        match fb[i] {
            LetterScore::Here => {},
            _ => {
                return false;
            },
        }
        i = i + 1;
    }
    true
}

/// A guess identical to the solution scores `Here` at every position.
pub proof fn lemma_score_identity(w: Seq<u8>)
    ensures
        score_spec(w, w).len() == w.len(),
        all_here(score_spec(w, w)),
{
}

/// A found slot lies in range at or after the start of the search, is
/// unconsumed, is not the searching position itself, and holds the
/// searched letter.
proof fn lemma_find_props(s: Seq<u8>, c: u8, used: Seq<bool>, i: int, j0: int, j: int)
    requires
        find_slot_from(s, c, used, i, j0) == Some(j),
    ensures
        j0 <= j < s.len(),
        !used[j],
        j != i,
        s[j] == c,
    decreases s.len() - j0,
{
    if j0 < 0 || j0 >= s.len() {
    } else if !used[j0] && j0 != i && s[j0] == c {
    } else {
        lemma_find_props(s, c, used, i, j0 + 1, j);
    }
}

/// The consumption state always has one slot per solution letter.
proof fn lemma_slots_used_len(s: Seq<u8>, g: Seq<u8>, i: int)
    ensures
        slots_used_before(s, g, i).len() == s.len(),
    decreases i,
{
    if i > 0 {
        lemma_slots_used_len(s, g, i - 1);
        let prev = slots_used_before(s, g, i - 1);
        if s[i - 1] != g[i - 1] {
            match find_slot_from(s, g[i - 1], prev, i - 1, 0) {
                Some(jj) => {
                    lemma_find_props(s, g[i - 1], prev, i - 1, 0, jj);
                },
                None => {},
            }
        }
    }
}

/// A consumed slot stays consumed for the rest of the presence pass.
proof fn lemma_used_monotone(s: Seq<u8>, g: Seq<u8>, i1: int, i2: int, j: int)
    requires
        0 <= i1 <= i2,
        0 <= j < s.len(),
        slots_used_before(s, g, i1)[j],
    ensures
        slots_used_before(s, g, i2)[j],
    decreases i2 - i1,
{
    if i1 < i2 {
        lemma_used_monotone(s, g, i1, i2 - 1, j);
        lemma_slots_used_len(s, g, i2 - 1);
        let prev = slots_used_before(s, g, i2 - 1);
        if s[i2 - 1] != g[i2 - 1] {
            match find_slot_from(s, g[i2 - 1], prev, i2 - 1, 0) {
                Some(jj) => {
                    lemma_find_props(s, g[i2 - 1], prev, i2 - 1, 0, jj);
                },
                None => {},
            }
        }
    }
}

/// The `Somewhere` at position `i` claims this solution slot: in
/// range, holding the guessed letter, not the position itself, and not
/// a slot where guess and solution agree.
pub open spec fn somewhere_claims(s: Seq<u8>, g: Seq<u8>, i: int) -> bool {
    match_slot(s, g, i) matches Some(j) && 0 <= j < s.len() && s[j] == g[i] && j != i && s[j]
        != g[j]
}

/// The law of no double counting: every `Somewhere` slot claims a
/// distinct solution slot holding its letter, never its own position
/// and never a position where guess and solution agree — those
/// occurrences are claimed by their own `Here` and serve no one else.
pub proof fn lemma_no_double_counting(s: Seq<u8>, g: Seq<u8>)
    requires
        s.len() == g.len(),
    ensures
        forall|i: int|
            0 <= i < g.len() && score_spec(s, g)[i] == LetterScore::Somewhere
                ==> somewhere_claims(s, g, i),
        forall|i1: int, i2: int|
            0 <= i1 < g.len() && 0 <= i2 < g.len() && i1 != i2 && match_slot(s, g, i1) is Some
                && match_slot(s, g, i2) is Some ==> match_slot(s, g, i1) != match_slot(s, g, i2),
{
    assert forall|i: int|
        0 <= i < g.len() && score_spec(s, g)[i] == LetterScore::Somewhere implies somewhere_claims(
        s,
        g,
        i,
    ) by {
        let used = slots_used_before(s, g, i);
        let j = match_slot(s, g, i)->Some_0;
        lemma_find_props(s, g[i], used, i, 0, j);
        if s[j] == g[j] {
            lemma_used_monotone(s, g, 0, i, j);
        }
    }
    assert forall|i1: int, i2: int|
        0 <= i1 < g.len() && 0 <= i2 < g.len() && i1 != i2 && match_slot(s, g, i1) is Some
            && match_slot(s, g, i2) is Some implies match_slot(s, g, i1) != match_slot(
        s,
        g,
        i2,
    ) by {
        let lo = if i1 < i2 {
            i1
        } else {
            i2
        };
        let hi = if i1 < i2 {
            i2
        } else {
            i1
        };
        let jl = match_slot(s, g, lo)->Some_0;
        let jh = match_slot(s, g, hi)->Some_0;
        if s[hi] == g[hi] {
            // the later position matches exactly: its slot is its own,
            // already consumed by the exact pass, so the earlier match
            // cannot have claimed it
            if s[lo] != g[lo] {
                lemma_find_props(s, g[lo], slots_used_before(s, g, lo), lo, 0, jl);
                lemma_used_monotone(s, g, 0, lo, hi);
            }
        } else {
            lemma_find_props(s, g[hi], slots_used_before(s, g, hi), hi, 0, jh);
            if s[lo] == g[lo] {
                // the earlier slot was consumed by the exact pass
                lemma_used_monotone(s, g, 0, hi, jl);
            } else {
                // the earlier match consumed its slot one step later
                lemma_find_props(s, g[lo], slots_used_before(s, g, lo), lo, 0, jl);
                lemma_slots_used_len(s, g, lo);
                assert(slots_used_before(s, g, lo + 1)[jl]);
                lemma_used_monotone(s, g, lo + 1, hi, jl);
            }
        }
    }
}

/// The number of positions `j < n` of `w` holding the letter `c`.
pub(crate) open spec fn letter_count(w: Seq<u8>, c: u8, n: int) -> nat
    decreases n,
{
    if n <= 0 {
        0
    } else {
        letter_count(w, c, n - 1) + (if w[n - 1] == c {
            1nat
        } else {
            0nat
        })
    }
}

/// The number of consumed slots `j < n` holding the letter `c`.
pub(crate) open spec fn used_letter_count(s: Seq<u8>, used: Seq<bool>, c: u8, n: int) -> nat
    decreases n,
{
    if n <= 0 {
        0
    } else {
        used_letter_count(s, used, c, n - 1) + (if used[n - 1] && s[n - 1] == c {
            1nat
        } else {
            0nat
        })
    }
}

/// The number of guess positions `i < n` holding the letter `c` that
/// scored other than `Nowhere`.
pub(crate) open spec fn marked_letter_count(s: Seq<u8>, g: Seq<u8>, c: u8, n: int) -> nat
    decreases n,
{
    if n <= 0 {
        0
    } else {
        marked_letter_count(s, g, c, n - 1) + (if g[n - 1] == c && match_slot(s, g, n - 1) is Some {
            1nat
        } else {
            0nat
        })
    }
}

/// The number of guess positions `i < n` holding the letter `c` whose
/// presence-pass search claimed a slot.
pub(crate) open spec fn somewhere_letter_count(s: Seq<u8>, g: Seq<u8>, c: u8, n: int) -> nat
    decreases n,
{
    if n <= 0 {
        0
    } else {
        somewhere_letter_count(s, g, c, n - 1) + (if g[n - 1] == c && s[n - 1] != g[n - 1]
            && match_slot(s, g, n - 1) is Some {
            1nat
        } else {
            0nat
        })
    }
}

/// The number of feedback slots `i < n` scored other than `Nowhere`.
pub open spec fn hit_count(fb: Seq<LetterScore>, n: int) -> nat
    decreases n,
{
    if n <= 0 {
        0
    } else {
        hit_count(fb, n - 1) + (if fb[n - 1] != LetterScore::Nowhere {
            1nat
        } else {
            0nat
        })
    }
}

/// The letters of the guess at positions scored other than `Nowhere`,
/// as a multiset.
pub(crate) open spec fn matched_letters(s: Seq<u8>, g: Seq<u8>, n: int) -> Multiset<u8>
    decreases n,
{
    if n <= 0 {
        Multiset::<u8>::empty()
    } else {
        let rest = matched_letters(s, g, n - 1);
        if match_slot(s, g, n - 1) is Some {
            rest.insert(g[n - 1])
        } else {
            rest
        }
    }
}

/// Consuming one fresh slot raises the consumed count of its letter by
/// one and no other.
proof fn lemma_used_count_update(s: Seq<u8>, used: Seq<bool>, c: u8, j: int, n: int)
    requires
        used.len() == s.len(),
        0 <= j < used.len(),
        !used[j],
        n <= s.len(),
    ensures
        used_letter_count(s, used.update(j, true), c, n) == used_letter_count(s, used, c, n) + (
        if j < n && s[j] == c {
            1int
        } else {
            0int
        }),
    decreases n,
{
    if n > 0 {
        lemma_used_count_update(s, used, c, j, n - 1);
    }
}

/// No letter is consumed more often than the solution holds it.
proof fn lemma_used_le_letter(s: Seq<u8>, used: Seq<bool>, c: u8, n: int)
    ensures
        used_letter_count(s, used, c, n) <= letter_count(s, c, n),
    decreases n,
{
    if n > 0 {
        lemma_used_le_letter(s, used, c, n - 1);
    }
}

/// The exact pass consumes, for each letter, exactly the slots the
/// `Here` positions occupy.
proof fn lemma_exact_here_count(s: Seq<u8>, g: Seq<u8>, c: u8, n: int)
    requires
        n <= s.len(),
        n <= g.len(),
    ensures
        used_letter_count(s, exact_used(s, g), c, n) == marked_letter_count(s, g, c, n)
            - somewhere_letter_count(s, g, c, n),
    decreases n,
{
    if n > 0 {
        lemma_exact_here_count(s, g, c, n - 1);
    }
}

/// After the presence pass has handled the first `i` guess positions,
/// the consumed slots of each letter are the exact pass's plus one per
/// claimed `Somewhere` so far.
proof fn lemma_used_count_after(s: Seq<u8>, g: Seq<u8>, c: u8, i: int)
    requires
        s.len() == g.len(),
        0 <= i <= g.len(),
    ensures
        used_letter_count(s, slots_used_before(s, g, i), c, s.len() as int) == used_letter_count(
            s,
            exact_used(s, g),
            c,
            s.len() as int,
        ) + somewhere_letter_count(s, g, c, i),
    decreases i,
{
    if i > 0 {
        lemma_used_count_after(s, g, c, i - 1);
        lemma_slots_used_len(s, g, i - 1);
        let prev = slots_used_before(s, g, i - 1);
        if s[i - 1] != g[i - 1] {
            match find_slot_from(s, g[i - 1], prev, i - 1, 0) {
                Some(jj) => {
                    lemma_find_props(s, g[i - 1], prev, i - 1, 0, jj);
                    lemma_used_count_update(s, prev, c, jj, s.len() as int);
                },
                None => {},
            }
        }
    }
}

/// No letter scores more often than the guess holds it.
proof fn lemma_marked_le_guess(s: Seq<u8>, g: Seq<u8>, c: u8, n: int)
    ensures
        marked_letter_count(s, g, c, n) <= letter_count(g, c, n),
    decreases n,
{
    if n > 0 {
        lemma_marked_le_guess(s, g, c, n - 1);
    }
}

/// Per letter, the positions scored other than `Nowhere` never
/// outnumber the letter's occurrences in the solution, nor in the
/// guess.
proof fn lemma_marked_letter_bound(s: Seq<u8>, g: Seq<u8>, c: u8)
    requires
        s.len() == g.len(),
    ensures
        marked_letter_count(s, g, c, g.len() as int) <= letter_count(s, c, s.len() as int),
        marked_letter_count(s, g, c, g.len() as int) <= letter_count(g, c, g.len() as int),
{
    lemma_exact_here_count(s, g, c, s.len() as int);
    lemma_used_count_after(s, g, c, g.len() as int);
    lemma_used_le_letter(s, slots_used_before(s, g, g.len() as int), c, s.len() as int);
    lemma_marked_le_guess(s, g, c, g.len() as int);
}

/// The per-position letter count agrees with the multiset view of the
/// word.
proof fn lemma_letter_count_to_multiset(w: Seq<u8>, c: u8, n: int)
    requires
        0 <= n <= w.len(),
    ensures
        letter_count(w, c, n) == w.take(n).to_multiset().count(c),
    decreases n,
{
    broadcast use vstd::seq_lib::group_to_multiset_ensures;
    broadcast use vstd::multiset::group_multiset_axioms;

    if n == 0 {
        assert(w.take(0) =~= Seq::<u8>::empty());
        w.take(0).to_multiset_ensures();
        assert(w.take(0).to_multiset().len() == 0);
    } else {
        lemma_letter_count_to_multiset(w, c, n - 1);
        assert(w.take(n) =~= w.take(n - 1).push(w[n - 1]));
    }
}

/// The matched letters are counted by `marked_letter_count` and their
/// number is the number of slots scored other than `Nowhere`.
proof fn lemma_matched_letters_counts(s: Seq<u8>, g: Seq<u8>, c: u8, n: int)
    requires
        s.len() == g.len(),
        0 <= n <= g.len(),
    ensures
        matched_letters(s, g, n).count(c) == marked_letter_count(s, g, c, n),
        matched_letters(s, g, n).len() == hit_count(score_spec(s, g), n),
    decreases n,
{
    broadcast use vstd::multiset::group_multiset_axioms;

    if n > 0 {
        lemma_matched_letters_counts(s, g, c, n - 1);
        vstd::multiset::lemma_insert_len(matched_letters(s, g, n - 1), g[n - 1]);
    }
}

/// A multiset that another dominates pointwise is no longer than it.
proof fn lemma_count_le_implies_len_le(a: Multiset<u8>, b: Multiset<u8>)
    requires
        forall|c: u8| a.count(c) <= b.count(c),
    ensures
        a.len() <= b.len(),
{
    broadcast use vstd::multiset::group_multiset_axioms;

    assert(b =~= a.add(b.sub(a)));
}

/// The law of shared letters: the number of feedback slots scored
/// other than `Nowhere` never exceeds the number of letters the guess
/// and the solution share, counting each solution letter occurrence at
/// most once — the size of the multiset intersection of the two words.
pub proof fn lemma_score_shared_letter_bound(s: Seq<u8>, g: Seq<u8>)
    requires
        s.len() == g.len(),
    ensures
        hit_count(score_spec(s, g), g.len() as int) <= s.to_multiset().intersection_with(
            g.to_multiset(),
        ).len(),
{
    let m = matched_letters(s, g, g.len() as int);
    let inter = s.to_multiset().intersection_with(g.to_multiset());
    assert forall|c: u8| m.count(c) <= inter.count(c) by {
        lemma_matched_letters_counts(s, g, c, g.len() as int);
        lemma_marked_letter_bound(s, g, c);
        lemma_letter_count_to_multiset(s, c, s.len() as int);
        lemma_letter_count_to_multiset(g, c, g.len() as int);
        assert(s.take(s.len() as int) =~= s);
        assert(g.take(g.len() as int) =~= g);
        vstd::multiset::lemma_intersection_count(s.to_multiset(), g.to_multiset(), c);
    }
    lemma_count_le_implies_len_le(m, inter);
    lemma_matched_letters_counts(s, g, 0, g.len() as int);
}

/// The feedback is all `Here` exactly when the guess spells the
/// solution.
pub proof fn lemma_all_here_iff_equal(s: Seq<u8>, g: Seq<u8>)
    requires
        s.len() == g.len(),
    ensures
        all_here(score_spec(s, g)) <==> s == g,
{
    if all_here(score_spec(s, g)) {
        assert forall|i: int| 0 <= i < s.len() implies s[i] == g[i] by {
            assert(score_spec(s, g)[i] == LetterScore::Here);
        }
        assert(s =~= g);
    }
}

} // verus!
