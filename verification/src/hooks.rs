//! Continuation hooks: extending a match beyond what the automaton saw.
//!
//! A hook is consulted after the scan step for variants declared with `more`:
//! it receives the matched bytes and the remaining input, and answers how
//! many further bytes the token spans, or refuses, which the iterator turns
//! into a lexical error. A hook is a pure function of its arguments: the
//! trait couples the executable method to a specification function, so every
//! implementation is deterministic and never claims more bytes than remain.

use vstd::prelude::*;

verus! {

/// A set of continuation hooks for one declaration. The iterator calls
/// `more` with the pattern identifier of the matched variant, the matched
/// bytes, and the tail of the input after the match.
pub trait More {
    /// What the hook answers, as a function of its arguments alone.
    spec fn more_spec(&self, pat: usize, matched: Seq<u8>, tail: Seq<u8>) -> Option<nat>;

    /// Answers how many bytes beyond `matched` the token spans (never more
    /// than `tail` holds), or `None` to refuse the match.
    fn more(&self, pat: usize, matched: &[u8], tail: &[u8]) -> (r: Option<usize>)
        ensures
            match r {
                Some(extra) => extra <= tail@.len() && self.more_spec(pat, matched@, tail@)
                    == Some(extra as nat),
                None => self.more_spec(pat, matched@, tail@) is None,
            },
    ;
}

/// The hook set for declarations without hooked variants: it never extends a
/// match. The iterator never consults it when no variant is declared with a
/// hook.
pub struct NoMore;

impl More for NoMore {
    open spec fn more_spec(&self, pat: usize, matched: Seq<u8>, tail: Seq<u8>) -> Option<nat> {
        Some(0)
    }

    fn more(&self, pat: usize, matched: &[u8], tail: &[u8]) -> (r: Option<usize>) {
        Some(0)
    }
}

/// Whether `needle` occurs in `hay` at position `i`.
pub open spec fn occurs_at(hay: Seq<u8>, needle: Seq<u8>, i: int) -> bool {
    &&& 0 <= i
    &&& i + needle.len() <= hay.len()
    &&& hay.subrange(i, i + needle.len()) == needle
}

/// The first position at or after `i` where `needle` occurs in `hay`.
pub open spec fn first_occurrence_from(hay: Seq<u8>, needle: Seq<u8>, i: int) -> Option<int>
    decreases hay.len() + 1 - i,
{
    if i < 0 || i + needle.len() > hay.len() {
        None
    } else if hay.subrange(i, i + needle.len()) == needle {
        Some(i)
    } else {
        first_occurrence_from(hay, needle, i + 1)
    }
}

/// Finds the first occurrence of `needle` in `hay`.
pub fn find_first(hay: &[u8], needle: &[u8]) -> (r: Option<usize>)
    ensures
        match r {
            Some(i) => first_occurrence_from(hay@, needle@, 0) == Some(i as int) && i
                + needle@.len() <= hay@.len(),
            None => first_occurrence_from(hay@, needle@, 0) is None,
        },
{
    if needle.len() > hay.len() {
        return None;
    }
    let mut i: usize = 0;
    while i <= hay.len() - needle.len()
        invariant
            needle@.len() <= hay@.len(),
            0 <= i <= hay@.len() - needle@.len() + 1,
            first_occurrence_from(hay@, needle@, 0) == first_occurrence_from(
                hay@,
                needle@,
                i as int,
            ),
        decreases hay@.len() - needle@.len() + 1 - i,
    {
        let mut j: usize = 0;
        let mut all_eq = true;
        while j < needle.len() && all_eq
            invariant
                0 <= j <= needle@.len(),
                i + needle@.len() <= hay@.len() <= usize::MAX,
                all_eq ==> forall|k: int| 0 <= k < j ==> hay@[i + k] == needle@[k],
                !all_eq ==> exists|k: int| 0 <= k < needle@.len() && hay@[i + k] != needle@[k],
            decreases needle@.len() - j,
        {
            if hay[i + j] != needle[j] {
                all_eq = false;
                assert(hay@[i + j as int] != needle@[j as int]);
            }
            j = j + 1;
        }
        if all_eq {
            assert(j == needle@.len());
            assert(occurs_at(hay@, needle@, i as int)) by {
                assert(hay@.subrange(i as int, i + needle@.len()) =~= needle@);
            }
            return Some(i);
        }
        assert(!occurs_at(hay@, needle@, i as int)) by {
            let k = choose|k: int| 0 <= k < needle@.len() && hay@[i + k] != needle@[k];
            assert(hay@.subrange(i as int, i + needle@.len())[k] == hay@[i + k]);
        }
        i = i + 1;
    }
    None
}

/// The byte sequence that closes a raw string opened by `matched`: everything
/// after the first byte of the opener, reversed. An opener `r#*"` is thereby
/// closed by `"#*` with the same number of hashes.
pub open spec fn raw_terminator(matched: Seq<u8>) -> Seq<u8> {
    if matched.len() >= 1 {
        matched.skip(1).reverse()
    } else {
        Seq::empty()
    }
}

/// The continuation hook that closes raw string literals: after the automaton
/// has matched the opener `r#*"`, the token extends to the end of the first
/// occurrence of the matching terminator in the tail.
pub struct RawStringMore;

impl More for RawStringMore {
    open spec fn more_spec(&self, pat: usize, matched: Seq<u8>, tail: Seq<u8>) -> Option<nat> {
        match first_occurrence_from(tail, raw_terminator(matched), 0) {
            Some(i) => Some((i + raw_terminator(matched).len()) as nat),
            None => None,
        }
    }

    fn more(&self, pat: usize, matched: &[u8], tail: &[u8]) -> (r: Option<usize>) {
        let mut term: Vec<u8> = Vec::new();
        if matched.len() >= 1 {
            let mut k: usize = 0;
            while k < matched.len() - 1
                invariant
                    1 <= matched@.len(),
                    0 <= k <= matched@.len() - 1,
                    term@.len() == k,
                    forall|x: int| 0 <= x < k ==> term@[x] == matched@[matched@.len() - 1 - x],
                decreases matched@.len() - 1 - k,
            {
                term.push(matched[matched.len() - 1 - k]);
                k = k + 1;
            }
        }
        proof {
            assert(term@ =~= raw_terminator(matched@));
        }
        match find_first(tail, term.as_slice()) {
            Some(i) => {
                let n = tail.len();
                assert(i + term@.len() <= n);
                Some(i + term.len())
            },
            None => None,
        }
    }
}

} // verus!
