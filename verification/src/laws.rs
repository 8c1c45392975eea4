//! The laws of the engine, stated over the specification functions the
//! iterator's contract is pinned to: coverage, monotonicity, skip
//! invisibility, determinism and restart equivalence. The longest-match law
//! lives beside the scan step in [`crate::scan`].

use vstd::prelude::*;

verus! {

use crate::hooks::More;
use crate::lexer::{Item, LexerModel, Step, TokenIterator, lex_end, lex_output, lex_trace, step_at};

/// The first byte offset an item speaks of.
pub open spec fn item_start(it: Item) -> int {
    match it {
        Item::Token { start, .. } => start,
        Item::Skipped { start, .. } => start,
        Item::Rejected { at } => at,
    }
}

/// The offset one past the last byte an item speaks of; a lexical error
/// covers no bytes.
pub open spec fn item_end(it: Item) -> int {
    match it {
        Item::Token { end, .. } => end,
        Item::Skipped { end, .. } => end,
        Item::Rejected { at } => at,
    }
}

/// The bytes of the input an item covers.
pub open spec fn item_bytes(input: Seq<u8>, it: Item) -> Seq<u8> {
    input.subrange(item_start(it), item_end(it))
}

/// Every step taken strictly inside the input either rejects exactly at the
/// cursor or moves the cursor strictly forward, never past the end.
proof fn lemma_step_end_bounds<C: More>(m: LexerModel, hooks: C, input: Seq<u8>, c: int)
    requires
        0 <= c < input.len(),
    ensures
        step_at(m, hooks, input, c) matches Step::Skip { end } ==> c < end <= input.len(),
        step_at(m, hooks, input, c) matches Step::Emit { start, pat, end } ==> start == c && c
            < end <= input.len(),
        step_at(m, hooks, input, c) matches Step::Reject { at } ==> at == c,
        !(step_at(m, hooks, input, c) is End),
{
}

/// Coverage: concatenating the bytes of every emitted token and every skipped
/// span, in iteration order, reproduces the input exactly from the starting
/// cursor up to the position where the iteration stops (the end of the input,
/// or the offset of the lexical error, which covers no bytes).
pub proof fn lemma_coverage<C: More>(m: LexerModel, hooks: C, input: Seq<u8>, c: int)
    requires
        0 <= c <= input.len(),
    ensures
        c <= lex_end(m, hooks, input, c) <= input.len(),
        lex_trace(m, hooks, input, c).map(|i: int, it: Item| item_bytes(input, it)).flatten()
            == input.subrange(c, lex_end(m, hooks, input, c)),
    decreases input.len() - c,
{
    let f = |i: int, it: Item| item_bytes(input, it);
    let tr = lex_trace(m, hooks, input, c);
    let stop = lex_end(m, hooks, input, c);
    if c == input.len() {
        assert(tr.map(f).flatten() =~= input.subrange(c, stop)) by {
            assert(tr.map(f) =~= Seq::<Seq<u8>>::empty());
        }
    } else {
        lemma_step_end_bounds(m, hooks, input, c);
        match step_at(m, hooks, input, c) {
            Step::End => {
                assert(false);
            },
            Step::Reject { at } => {
                assert(tr.map(f) =~= seq![item_bytes(input, Item::Rejected { at })]);
                assert(tr.map(f).flatten() =~= input.subrange(c, stop)) by {
                    assert(tr.map(f).flatten() == tr.map(f).first() + tr.map(f).drop_first()
                        .flatten());
                    assert(tr.map(f).drop_first() =~= Seq::<Seq<u8>>::empty());
                    assert(Seq::<Seq<u8>>::empty().flatten() =~= Seq::<u8>::empty());
                    assert(item_bytes(input, Item::Rejected { at }) =~= Seq::<u8>::empty());
                    assert(input.subrange(c, stop) =~= Seq::<u8>::empty());
                }
            },
            Step::Skip { end } => {
                lemma_coverage(m, hooks, input, end);
                let it0 = tr[0];
                let rest = lex_trace(m, hooks, input, end);
                assert(tr == seq![it0] + rest);
                assert(tr.map(f) =~= seq![f(0, it0)] + rest.map(f));
                assert(tr.map(f).drop_first() =~= rest.map(f));
                assert(tr.map(f).flatten() == item_bytes(input, it0) + rest.map(f).flatten());
                assert(item_start(it0) == c && item_end(it0) == end);
                assert(tr.map(f).flatten() =~= input.subrange(c, stop));
            },
            Step::Emit { start, pat, end } => {
                lemma_coverage(m, hooks, input, end);
                let it0 = tr[0];
                let rest = lex_trace(m, hooks, input, end);
                assert(tr == seq![it0] + rest);
                assert(tr.map(f) =~= seq![f(0, it0)] + rest.map(f));
                assert(tr.map(f).drop_first() =~= rest.map(f));
                assert(tr.map(f).flatten() == item_bytes(input, it0) + rest.map(f).flatten());
                assert(item_start(it0) == c && item_end(it0) == end);
                assert(tr.map(f).flatten() =~= input.subrange(c, stop));
            },
        }
    }
}

/// Monotonicity: every yielded item lies between the cursor and the end of
/// the input, every emitted token is non-empty (`start < end`), and for
/// successive yielded items the earlier one ends no later than the next one
/// starts.
pub proof fn lemma_monotonicity<C: More>(m: LexerModel, hooks: C, input: Seq<u8>, c: int)
    requires
        0 <= c <= input.len(),
    ensures
        forall|k: int| 0 <= k < lex_output(m, hooks, input, c).len() ==> c <= item_start(
            #[trigger] lex_output(m, hooks, input, c)[k],
        ) && item_start(lex_output(m, hooks, input, c)[k]) <= item_end(
            lex_output(m, hooks, input, c)[k],
        ) && item_end(lex_output(m, hooks, input, c)[k]) <= input.len(),
        forall|k: int| 0 <= k < lex_output(m, hooks, input, c).len() ==> ((#[trigger] lex_output(
            m,
            hooks,
            input,
            c,
        )[k]) is Token ==> item_start(lex_output(m, hooks, input, c)[k]) < item_end(
            lex_output(m, hooks, input, c)[k],
        )),
        forall|k: int| 0 <= k && k + 1 < lex_output(m, hooks, input, c).len() ==> item_end(
            #[trigger] lex_output(m, hooks, input, c)[k],
        ) <= item_start(lex_output(m, hooks, input, c)[k + 1]),
    decreases input.len() - c,
{
    let out = lex_output(m, hooks, input, c);
    if c == input.len() {
    } else {
        lemma_step_end_bounds(m, hooks, input, c);
        match step_at(m, hooks, input, c) {
            Step::End => {
                assert(false);
            },
            Step::Reject { at } => {},
            Step::Skip { end } => {
                lemma_monotonicity(m, hooks, input, end);
            },
            Step::Emit { start, pat, end } => {
                lemma_monotonicity(m, hooks, input, end);
                let rest = lex_output(m, hooks, input, end);
                assert(out == seq![Item::Token { start, pat, end }] + rest);
                assert(forall|k: int| 0 <= k < rest.len() ==> out[k + 1] == #[trigger] rest[k]);
            },
        }
    }
}

/// Skip invisibility: no skipped span appears among the yielded items, and
/// every yielded token carries a token-pattern identifier, never a skip
/// pattern's (the skipped bytes are nevertheless covered: [`lemma_coverage`]
/// counts the skipped spans of the trace).
pub proof fn lemma_skip_invisibility<C: More>(m: LexerModel, hooks: C, input: Seq<u8>, c: int)
    requires
        0 <= c <= input.len(),
    ensures
        forall|k: int| 0 <= k < lex_output(m, hooks, input, c).len() ==> !((#[trigger] lex_output(
            m,
            hooks,
            input,
            c,
        )[k]) is Skipped),
        forall|k: int| 0 <= k < lex_output(m, hooks, input, c).len() ==> ((#[trigger] lex_output(
            m,
            hooks,
            input,
            c,
        )[k]) matches Item::Token { start, pat, end } ==> 0 <= pat < m.n_tokens),
    decreases input.len() - c,
{
    let out = lex_output(m, hooks, input, c);
    if c == input.len() {
    } else {
        lemma_step_end_bounds(m, hooks, input, c);
        match step_at(m, hooks, input, c) {
            Step::End => {
                assert(false);
            },
            Step::Reject { at } => {},
            Step::Skip { end } => {
                lemma_skip_invisibility(m, hooks, input, end);
            },
            Step::Emit { start, pat, end } => {
                lemma_skip_invisibility(m, hooks, input, end);
                let rest = lex_output(m, hooks, input, end);
                assert(out == seq![Item::Token { start, pat, end }] + rest);
                assert(forall|k: int| 0 <= k < rest.len() ==> out[k + 1] == #[trigger] rest[k]);
            },
        }
    }
}

/// A lexical error closes the iteration: where a `Rejected` item occurs among
/// the yielded items, it is the last of them.
pub proof fn lemma_error_is_last<C: More>(m: LexerModel, hooks: C, input: Seq<u8>, c: int)
    requires
        0 <= c <= input.len(),
    ensures
        forall|k: int| 0 <= k < lex_output(m, hooks, input, c).len() ==> ((#[trigger] lex_output(
            m,
            hooks,
            input,
            c,
        )[k]) is Rejected ==> k == lex_output(m, hooks, input, c).len() - 1),
    decreases input.len() - c,
{
    let out = lex_output(m, hooks, input, c);
    if c == input.len() {
    } else {
        lemma_step_end_bounds(m, hooks, input, c);
        match step_at(m, hooks, input, c) {
            Step::End => {
                assert(false);
            },
            Step::Reject { at } => {},
            Step::Skip { end } => {
                lemma_error_is_last(m, hooks, input, end);
            },
            Step::Emit { start, pat, end } => {
                lemma_error_is_last(m, hooks, input, end);
                let rest = lex_output(m, hooks, input, end);
                assert(out == seq![Item::Token { start, pat, end }] + rest);
                assert(forall|k: int| 0 <= k < rest.len() ==> out[k + 1] == #[trigger] rest[k]);
            },
        }
    }
}

/// Determinism: two iterators over the same compiled lexer, hook set, input
/// and cursor yield identical item sequences and stop at the same position.
/// Together with the contract of `next`, which pins each call's result to
/// `remaining()`, two equal iterators behave identically call by call.
pub proof fn lemma_determinism<'a, C: More>(a: TokenIterator<'a, C>, b: TokenIterator<'a, C>)
    requires
        a.model() == b.model(),
        a.hooks_spec() == b.hooks_spec(),
        a.input_spec() == b.input_spec(),
        a.pos() == b.pos(),
    ensures
        a.remaining() == b.remaining(),
        a.final_pos() == b.final_pos(),
{
}

/// Restart equivalence: an iterator whose cursor has been reset to the
/// beginning (see `TokenIterator::restart`) yields exactly what a freshly
/// created iterator over the same lexer, hook set and input yields.
pub proof fn lemma_restart_equivalence<'a, C: More>(
    fresh: TokenIterator<'a, C>,
    restarted: TokenIterator<'a, C>,
)
    requires
        fresh.model() == restarted.model(),
        fresh.hooks_spec() == restarted.hooks_spec(),
        fresh.input_spec() == restarted.input_spec(),
        fresh.pos() == 0,
        restarted.pos() == 0,
    ensures
        fresh.remaining() == restarted.remaining(),
{
}

} // verus!
