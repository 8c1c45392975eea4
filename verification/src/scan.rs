//! The scan step: longest-prefix matching against the anchored DFA.
//!
//! `regex_automata`'s automata delay every match by one symbol: after the
//! automaton has consumed `l + 1` bytes (or `l` bytes followed by the
//! end-of-input transition, when `l` is the whole slice), an accepting state
//! signals that the prefix of length `l` matches. The specification below
//! states acceptance that way, and [`dfa_search_next`] is proved to return
//! the longest accepted prefix of positive length, together with the first
//! pattern its accepting state reports.

use vstd::prelude::*;

verus! {

use regex_automata::dfa::dense::DFA;
use crate::dfa::{
    dfa_dead, dfa_eoi, dfa_match_ids, dfa_states, dfa_trans, dfa_wf, dense_is_dead_state,
    dense_is_match_state, dense_match_pattern, dense_next_eoi_state, dense_next_state,
};

/// The state the automaton is in after consuming the first `i` bytes of `s`,
/// starting from state `start`.
pub open spec fn run_state(d: DFA<Vec<u32>>, start: nat, s: Seq<u8>, i: int) -> nat
    decreases i,
{
    if i <= 0 {
        start
    } else {
        dfa_trans(d)[(run_state(d, start, s, i - 1), s[i - 1])]
    }
}

/// The state that signals whether the prefix of `s` of length `l` matches:
/// for `l < s.len()` the state after `l + 1` bytes (matches are delayed by
/// one byte), and for `l == s.len()` the state after the whole slice followed
/// by the end-of-input transition.
pub open spec fn match_state_at(d: DFA<Vec<u32>>, start: nat, s: Seq<u8>, l: int) -> nat {
    if l < s.len() {
        run_state(d, start, s, l + 1)
    } else {
        dfa_eoi(d)[run_state(d, start, s, s.len() as int)]
    }
}

/// Whether the prefix of `s` of length `l` is accepted by some pattern.
pub open spec fn accepts(d: DFA<Vec<u32>>, start: nat, s: Seq<u8>, l: int) -> bool {
    dfa_match_ids(d)[match_state_at(d, start, s, l)].len() > 0
}

/// The longest `l` with `1 <= l <= i` such that the prefix of length `l` is
/// accepted, or `0` when no such length exists. A zero-length match is never
/// counted: the engine must always advance.
pub open spec fn best_match_len(d: DFA<Vec<u32>>, start: nat, s: Seq<u8>, i: int) -> int
    decreases i,
{
    if i < 1 {
        0
    } else if accepts(d, start, s, i) {
        i
    } else {
        best_match_len(d, start, s, i - 1)
    }
}

/// What one scan step returns on the slice `s`: the longest accepted prefix
/// of positive length as `(pattern, length)`, where the pattern is the first
/// one the accepting state reports, or `None` when no non-empty prefix is
/// accepted.
pub open spec fn scan_result(d: DFA<Vec<u32>>, start: nat, s: Seq<u8>) -> Option<(nat, nat)> {
    let l = best_match_len(d, start, s, s.len() as int);
    if l == 0 {
        None
    } else {
        Some((dfa_match_ids(d)[match_state_at(d, start, s, l)][0], l as nat))
    }
}

/// `best_match_len` is bounded by its argument, accepted when positive, and
/// larger than every other accepted length in range.
proof fn lemma_best_props(d: DFA<Vec<u32>>, start: nat, s: Seq<u8>, i: int)
    ensures
        0 <= best_match_len(d, start, s, i) <= (if i < 0 { 0int } else { i }),
        best_match_len(d, start, s, i) > 0 ==> accepts(d, start, s, best_match_len(d, start, s, i)),
        forall|l: int| best_match_len(d, start, s, i) < l <= i ==> !accepts(d, start, s, l),
    decreases (if i < 0 { 0int } else { i }),
{
    if i >= 1 && !accepts(d, start, s, i) {
        lemma_best_props(d, start, s, i - 1);
    }
}

/// Once the automaton is in a dead state it stays there.
proof fn lemma_dead_run(d: DFA<Vec<u32>>, start: nat, s: Seq<u8>, i: int, j: int)
    requires
        dfa_wf(d),
        dfa_dead(d).contains(run_state(d, start, s, i)),
        0 <= i <= j,
    ensures
        run_state(d, start, s, j) == run_state(d, start, s, i),
    decreases j - i,
{
    if j > i {
        lemma_dead_run(d, start, s, i, j - 1);
    }
}

/// Where no length in `(lo, hi]` is accepted, the best match up to `hi` is
/// the best match up to `lo`.
proof fn lemma_best_stable(d: DFA<Vec<u32>>, start: nat, s: Seq<u8>, lo: int, hi: int)
    requires
        lo <= hi,
        forall|l: int| lo < l <= hi ==> !accepts(d, start, s, l),
    ensures
        best_match_len(d, start, s, hi) == best_match_len(d, start, s, lo),
    decreases hi - lo,
{
    if hi > lo {
        lemma_best_stable(d, start, s, lo, hi - 1);
    }
}

/// The scan step. Starting from `start`, feeds `input` to the automaton byte
/// by byte, remembering the most recent accepting position, stopping early in
/// a dead state, and taking the end-of-input transition when the bytes run
/// out. Returns the longest accepted prefix of positive length with the first
/// pattern its accepting state reports, and `None` when no non-empty prefix
/// is accepted.
pub fn dfa_search_next(dfa: &DFA<Vec<u32>>, start: usize, input: &[u8]) -> (r: Option<(u32, usize)>)
    requires
        dfa_wf(*dfa),
        dfa_states(*dfa).contains(start as nat),
    ensures
        match r {
            Some((p, l)) => scan_result(*dfa, start as nat, input@) == Some((p as nat, l as nat))
                && 1 <= l <= input@.len(),
            None => scan_result(*dfa, start as nat, input@) is None,
        },
{
    let ghost d = *dfa;
    let ghost st: nat = start as nat;
    let ghost s = input@;
    let mut state: usize = start;
    let mut m_state: usize = start;
    let mut m_len: usize = 0;
    let mut i: usize = 0;
    let mut dead = false;
    while i < input.len() && !dead
        invariant
            dfa_wf(d),
            d == *dfa,
            st == start as nat,
            s == input@,
            0 <= i <= input.len(),
            dfa_states(d).contains(state as nat),
            state as nat == run_state(d, st, s, i as int),
            dfa_states(d).contains(m_state as nat),
            m_len <= i,
            !dead ==> m_len as int == best_match_len(d, st, s, i as int - 1),
            dead ==> m_len as int == best_match_len(d, st, s, s.len() as int),
            m_len > 0 ==> m_state as nat == match_state_at(d, st, s, m_len as int)
                && dfa_match_ids(d)[m_state as nat].len() > 0,
        decreases input.len() - i,
    {
        let b = input[i];
        state = dense_next_state(dfa, state, b);
        assert(state as nat == run_state(d, st, s, i as int + 1));
        if dense_is_match_state(dfa, state) {
            assert(accepts(d, st, s, i as int));
            m_state = state;
            m_len = i;
            assert(m_len as int == best_match_len(d, st, s, i as int));
        } else if dense_is_dead_state(dfa, state) {
            dead = true;
            assert(!accepts(d, st, s, i as int));
            assert forall|l: int| i as int <= l <= s.len() as int implies !accepts(
                d,
                st,
                s,
                l,
            ) by {
                lemma_dead_run(d, st, s, i as int + 1, if l < s.len() { l + 1 } else { s.len() as int });
            }
            proof {
                lemma_best_stable(d, st, s, i as int - 1, s.len() as int);
            }
        } else {
            assert(!accepts(d, st, s, i as int));
        }
        i = i + 1;
    }
    if !dead {
        assert(i as int == s.len());
        assert(m_len as int == best_match_len(d, st, s, s.len() as int - 1));
        let eoi_state = dense_next_eoi_state(dfa, state);
        if dense_is_match_state(dfa, eoi_state) {
            assert(accepts(d, st, s, s.len() as int));
            m_state = eoi_state;
            m_len = input.len();
        } else {
            assert(!accepts(d, st, s, s.len() as int));
            proof {
                lemma_best_stable(d, st, s, s.len() as int - 1, s.len() as int);
            }
        }
    }
    assert(m_len as int == best_match_len(d, st, s, s.len() as int));
    if m_len != 0 {
        let pat = dense_match_pattern(dfa, m_state, 0);
        Some((pat, m_len))
    } else {
        None
    }
}

/// The longest-match law: a successful scan returns an accepted length beyond
/// which nothing in range is accepted, together with the first pattern its
/// accepting state reports (ties at the same length are thereby broken by the
/// order in which the automaton lists its patterns); a failed scan means no
/// prefix of positive length is accepted.
pub proof fn lemma_longest_match(d: DFA<Vec<u32>>, start: nat, s: Seq<u8>)
    ensures
        match scan_result(d, start, s) {
            Some((p, l)) => 1 <= l <= s.len()
                && accepts(d, start, s, l as int)
                && (forall|l2: int| l < l2 <= s.len() ==> !accepts(d, start, s, l2))
                && p == dfa_match_ids(d)[match_state_at(d, start, s, l as int)][0],
            None => forall|l: int| 1 <= l <= s.len() ==> !accepts(d, start, s, l),
        },
{
    lemma_best_props(d, start, s, s.len() as int);
}

} // verus!
