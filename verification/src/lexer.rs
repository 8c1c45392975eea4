//! The compiled lexer and its token iterator.
//!
//! Compiling a declaration validates it, assembles its regex sources, builds
//! the anchored automaton and records the pattern table: the count of token
//! patterns (identifiers at or past it are skip patterns) and which variants
//! carry continuation hooks. A compiled lexer hands out iterators over an
//! input buffer; what each iterator yields is pinned, item for item, to the
//! specification functions [`step_at`] and [`lex_output`], so the whole token
//! stream is a function of the automaton, the hook set, the input and the
//! cursor.

use vstd::prelude::*;

verus! {

use regex_automata::dfa::dense::DFA;
use crate::Error;
use crate::decl::{
    CompileError, Declaration, VariantSpec, decl_ok, decl_sources, variant_ok, pattern_sources,
};
use crate::dfa::{
    dfa_be_blob, dfa_dead, dfa_le_blob, dfa_states, dfa_trans, dfa_wf, dense_build,
    dense_build_ok, dense_dead_state_id, dense_from_blob, dense_is_match_state,
    dense_next_eoi_state, dense_next_state, dense_start_anchored, dense_to_bytes_big,
    dense_to_bytes_little,
};
use crate::hooks::More;
use crate::scan::{dfa_search_next, scan_result};
use vstd::slice::slice_subrange;

/// The ghost content of a compiled lexer: the automaton, its anchored start
/// state, how many patterns are token patterns (the rest are skips), and
/// which token patterns carry a continuation hook.
pub struct LexerModel {
    pub dfa: DFA<Vec<u32>>,
    pub start: nat,
    pub n_tokens: nat,
    pub more: Seq<bool>,
}

/// Well-formedness of a lexer model: the automaton satisfies its structural
/// facts, the start state is valid, and there is one hook flag per token
/// pattern.
pub open spec fn model_wf(m: LexerModel) -> bool {
    &&& dfa_wf(m.dfa)
    &&& dfa_states(m.dfa).contains(m.start)
    &&& m.more.len() == m.n_tokens
}

/// What the engine does at one cursor position.
pub enum Step {
    /// The input is exhausted.
    End,
    /// Emit the token `(start, pat, end)` and move the cursor to `end`.
    Emit { start: int, pat: int, end: int },
    /// A skip pattern matched: move the cursor to `end` and go round again.
    Skip { end: int },
    /// No pattern matched, or a hook refused: a lexical error at `at`, and
    /// the cursor does not move.
    Reject { at: int },
}

/// One element of what an iteration produces.
pub enum Item {
    /// An emitted token: the bytes `start..end` under token pattern `pat`.
    Token { start: int, pat: int, end: int },
    /// Bytes consumed invisibly by the skip pattern `pat`.
    Skipped { start: int, pat: int, end: int },
    /// The lexical error at byte offset `at`; nothing follows it.
    Rejected { at: int },
}

/// Clamps a step's end position into `(c, len]`. Under a well-formed model
/// the clamp never binds — the scan step returns a positive length within the
/// remaining input, and a hook never claims more than the tail holds — it
/// only makes the recursions below manifestly terminating.
pub open spec fn clamp_end(c: int, len: int, e: int) -> int {
    if e < c + 1 {
        c + 1
    } else if e > len {
        len
    } else {
        e
    }
}

/// What the engine does at cursor `c`: scan the remaining input anchored at
/// `c`; on no match reject at `c`; a skip pattern moves the cursor past the
/// match; a token pattern with a hook extends the match by what the hook
/// answers, or rejects at `c` where the hook refuses; the token spans from
/// `c` to the end of the (possibly extended) match.
pub open spec fn step_at<C: More>(m: LexerModel, hooks: C, input: Seq<u8>, c: int) -> Step {
    if !(0 <= c < input.len()) {
        Step::End
    } else {
        match scan_result(m.dfa, m.start, input.subrange(c, input.len() as int)) {
            None => Step::Reject { at: c },
            Some((p, l)) => {
                let e1 = clamp_end(c, input.len() as int, c + l);
                if p >= m.n_tokens {
                    Step::Skip { end: e1 }
                } else if m.more[p as int] {
                    match hooks.more_spec(
                        p as usize,
                        input.subrange(c, e1),
                        input.subrange(e1, input.len() as int),
                    ) {
                        None => Step::Reject { at: c },
                        Some(extra) => Step::Emit {
                            start: c,
                            pat: p as int,
                            end: clamp_end(c, input.len() as int, e1 + extra),
                        },
                    }
                } else {
                    Step::Emit { start: c, pat: p as int, end: e1 }
                }
            },
        }
    }
}

/// Everything an iteration from cursor `c` produces, the skipped spans
/// included.
pub open spec fn lex_trace<C: More>(m: LexerModel, hooks: C, input: Seq<u8>, c: int) -> Seq<Item>
    decreases input.len() - c,
{
    if !(0 <= c < input.len()) {
        Seq::empty()
    } else {
        match step_at(m, hooks, input, c) {
            Step::End => Seq::empty(),
            Step::Reject { at } => seq![Item::Rejected { at }],
            Step::Skip { end } => seq![
                Item::Skipped {
                    start: c,
                    pat: (scan_result(m.dfa, m.start, input.subrange(c, input.len() as int))->0).0
                        as int,
                    end,
                },
            ] + lex_trace(m, hooks, input, end),
            Step::Emit { start, pat, end } => seq![Item::Token { start, pat, end }] + lex_trace(
                m,
                hooks,
                input,
                end,
            ),
        }
    }
}

/// What an iteration from cursor `c` yields to its caller: the emitted tokens
/// in order, closed by a lexical error where one occurs. Skipped spans never
/// appear here.
pub open spec fn lex_output<C: More>(m: LexerModel, hooks: C, input: Seq<u8>, c: int) -> Seq<Item>
    decreases input.len() - c,
{
    if !(0 <= c < input.len()) {
        Seq::empty()
    } else {
        match step_at(m, hooks, input, c) {
            Step::End => Seq::empty(),
            Step::Reject { at } => seq![Item::Rejected { at }],
            Step::Skip { end } => lex_output(m, hooks, input, end),
            Step::Emit { start, pat, end } => seq![Item::Token { start, pat, end }] + lex_output(
                m,
                hooks,
                input,
                end,
            ),
        }
    }
}

/// The cursor position at which an iteration from `c` stops: the input's
/// length when the input is exhausted, or the position of the lexical error.
pub open spec fn lex_end<C: More>(m: LexerModel, hooks: C, input: Seq<u8>, c: int) -> int
    decreases input.len() - c,
{
    if !(0 <= c < input.len()) {
        c
    } else {
        match step_at(m, hooks, input, c) {
            Step::End => c,
            Step::Reject { at } => at,
            Step::Skip { end } => lex_end(m, hooks, input, end),
            Step::Emit { start, pat, end } => lex_end(m, hooks, input, end),
        }
    }
}

/// A lexer compiled from a declaration: the anchored all-matches automaton
/// over the declaration's patterns, and the pattern table the iterator
/// dispatches on.
pub struct CompiledLexer {
    dfa: DFA<Vec<u32>>,
    start: usize,
    n_tokens: usize,
    more_flags: Vec<bool>,
}

impl CompiledLexer {
    /// The ghost content of this lexer.
    pub closed spec fn model(self) -> LexerModel {
        LexerModel {
            dfa: self.dfa,
            start: self.start as nat,
            n_tokens: self.n_tokens as nat,
            more: self.more_flags@,
        }
    }

    #[verifier::type_invariant]
    spec fn type_wf(self) -> bool {
        model_wf(self.model())
    }

    /// Compiles a declaration: validates it, escapes its literals, builds the
    /// anchored all-matches automaton over the token patterns followed by the
    /// skip patterns, and records the pattern table. Compilation succeeds
    /// exactly on a well-bound declaration whose pattern sources the automaton
    /// builder accepts.
    pub fn compile(decl: &Declaration) -> (r: Result<CompiledLexer, CompileError>)
        ensures
            r is Ok <==> decl_ok(*decl) && dense_build_ok(decl_sources(*decl)),
            match r {
                Ok(lx) => decl_ok(*decl) && model_wf(lx.model()) && lx.model().n_tokens
                    == decl.variants@.len() && lx.model().more == decl.variants@.map(
                    |i: int, v: VariantSpec| v.more,
                ),
                Err(e) => match e {
                    CompileError::MissingPattern { variant } => variant < decl.variants@.len()
                        && decl.variants@[variant as int].token is None
                        && decl.variants@[variant as int].regex is None && (forall|j: int|
                        0 <= j < variant ==> variant_ok(#[trigger] decl.variants@[j])),
                    CompileError::DuplicatePattern { variant } => variant < decl.variants@.len()
                        && decl.variants@[variant as int].token is Some
                        && decl.variants@[variant as int].regex is Some && (forall|j: int|
                        0 <= j < variant ==> variant_ok(#[trigger] decl.variants@[j])),
                    CompileError::Regex => decl_ok(*decl) && !dense_build_ok(decl_sources(*decl)),
                    CompileError::BadBlob => false,
                },
            },
    {
        let sources = match pattern_sources(decl) {
            Ok(s) => s,
            Err(e) => {
                return Err(e);
            },
        };
        let dfa = match dense_build(&sources) {
            Ok(d) => d,
            Err(_) => {
                return Err(CompileError::Regex);
            },
        };
        let start = match dense_start_anchored(&dfa) {
            Some(s) => s,
            None => {
                return Err(CompileError::Regex);
            },
        };
        let mut more_flags: Vec<bool> = Vec::new();
        let mut i: usize = 0;
        while i < decl.variants.len()
            invariant
                0 <= i <= decl.variants@.len(),
                more_flags@.len() == i,
                forall|j: int| 0 <= j < i ==> more_flags@[j] == decl.variants@[j].more,
            decreases decl.variants@.len() - i,
        {
            more_flags.push(decl.variants[i].more);
            i = i + 1;
        }
        proof {
            assert(more_flags@ =~= decl.variants@.map(|i: int, v: VariantSpec| v.more));
        }
        Ok(CompiledLexer { dfa, start, n_tokens: decl.variants.len(), more_flags })
    }

    /// The lexer's automaton serialised for little-endian targets: the byte
    /// blob to persist or embed (at a 4-byte-aligned address) and hand back to
    /// [`CompiledLexer::from_dfa_bytes`] on such a target.
    pub fn dfa_bytes_little_endian(&self) -> (r: Vec<u8>)
        ensures
            r@ == dfa_le_blob(self.model().dfa),
    {
        dense_to_bytes_little(&self.dfa)
    }

    /// The lexer's automaton serialised for big-endian targets.
    pub fn dfa_bytes_big_endian(&self) -> (r: Vec<u8>)
        ensures
            r@ == dfa_be_blob(self.model().dfa),
    {
        dense_to_bytes_big(&self.dfa)
    }

    /// Rebuilds a lexer from a serialised automaton and its pattern table:
    /// `more_flags` holds one hook flag per token pattern, so its length is
    /// the token pattern count, and every pattern identifier at or past it is
    /// a skip pattern. The blob must have been serialised for this target's
    /// endianness and must sit at a 4-byte-aligned address; anything else is
    /// rejected. The crate's deserialisation validates the tables but not the
    /// dead state's behaviour, so this checks, transition by transition, that
    /// the blob's dead state is a non-matching state all of whose transitions
    /// (the end-of-input one included) loop back to itself, and rejects the
    /// blob otherwise.
    pub fn from_dfa_bytes(bytes: &[u8], more_flags: Vec<bool>) -> (r: Result<
        CompiledLexer,
        CompileError,
    >)
        ensures
            match r {
                Ok(lx) => model_wf(lx.model()) && lx.model().n_tokens == more_flags@.len()
                    && lx.model().more == more_flags@,
                Err(e) => e is BadBlob,
            },
    {
        let dfa = match dense_from_blob(bytes) {
            Some(d) => d,
            None => {
                return Err(CompileError::BadBlob);
            },
        };
        let dead = dense_dead_state_id(&dfa);
        if dense_is_match_state(&dfa, dead) {
            return Err(CompileError::BadBlob);
        }
        if dense_next_eoi_state(&dfa, dead) != dead {
            return Err(CompileError::BadBlob);
        }
        let mut b: usize = 0;
        while b < 256
            invariant
                dfa_dead(dfa) == set![dead as nat],
                dfa_states(dfa).contains(dead as nat),
                0 <= b <= 256,
                forall|b2: u8| (b2 as int) < b ==> #[trigger] dfa_trans(dfa)[(dead as nat, b2)]
                    == dead as nat,
            decreases 256 - b,
        {
            if dense_next_state(&dfa, dead, b as u8) != dead {
                return Err(CompileError::BadBlob);
            }
            b = b + 1;
        }
        proof {
            assert forall|s: nat, b2: u8| dfa_dead(dfa).contains(s) implies dfa_trans(
                dfa,
            )[(s, b2)] == s by {
                assert(s == dead as nat);
                assert((b2 as int) < 256);
            }
            assert forall|s: nat| dfa_dead(dfa).contains(s) implies crate::dfa::dfa_eoi(dfa)[s]
                == s by {
                assert(s == dead as nat);
            }
            assert forall|s: nat| dfa_dead(dfa).contains(s) implies crate::dfa::dfa_match_ids(
                dfa,
            )[s].len() == 0 by {
                assert(s == dead as nat);
            }
            assert(dfa_wf(dfa));
        }
        let start = match dense_start_anchored(&dfa) {
            Some(s) => s,
            None => {
                return Err(CompileError::BadBlob);
            },
        };
        let n_tokens = more_flags.len();
        Ok(CompiledLexer { dfa, start, n_tokens, more_flags })
    }

    /// How many patterns of this lexer are token patterns; every pattern
    /// identifier at or past this count is a skip pattern.
    pub fn token_pattern_count(&self) -> (n: usize)
        ensures
            n as nat == self.model().n_tokens,
    {
        self.n_tokens
    }

    /// Begins lexing `input`: a fresh iterator at cursor `0`, sharing this
    /// lexer and the given hook set.
    pub fn lex<'a, C: More>(&'a self, input: &'a [u8], hooks: &'a C) -> (it: TokenIterator<'a, C>)
        ensures
            it.model() == self.model(),
            it.hooks_spec() == *hooks,
            it.input_spec() == input@,
            it.pos() == 0,
    {
        TokenIterator { lexer: self, hooks, input, consumed: 0 }
    }
}

/// A lazy, restartable iterator over the tokens of one input buffer. It
/// borrows the input, the compiled lexer and the hook set, and owns nothing
/// but its cursor.
pub struct TokenIterator<'a, C: More> {
    lexer: &'a CompiledLexer,
    hooks: &'a C,
    input: &'a [u8],
    consumed: usize,
}

impl<'a, C: More> TokenIterator<'a, C> {
    /// The ghost content of the lexer this iterator runs on.
    pub closed spec fn model(self) -> LexerModel {
        self.lexer.model()
    }

    /// The hook set this iterator consults.
    pub closed spec fn hooks_spec(self) -> C {
        *self.hooks
    }

    /// The input buffer.
    pub closed spec fn input_spec(self) -> Seq<u8> {
        self.input@
    }

    /// The cursor: how many bytes lie behind the iterator.
    pub closed spec fn pos(self) -> int {
        self.consumed as int
    }

    #[verifier::type_invariant]
    spec fn type_wf(self) -> bool {
        0 <= self.consumed <= self.input@.len()
    }

    /// The items this iterator still yields.
    pub open spec fn remaining(self) -> Seq<Item> {
        lex_output(self.model(), self.hooks_spec(), self.input_spec(), self.pos())
    }

    /// The cursor position at which this iterator will stop.
    pub open spec fn final_pos(self) -> int {
        lex_end(self.model(), self.hooks_spec(), self.input_spec(), self.pos())
    }

    /// The current cursor position.
    pub fn consumed(&self) -> (c: usize)
        ensures
            c as int == self.pos(),
    {
        self.consumed
    }

    /// Resets the cursor to the beginning: the iterator then yields the same
    /// items a fresh one would, without rebuilding anything.
    pub fn restart(&mut self)
        ensures
            final(self).model() == old(self).model(),
            final(self).hooks_spec() == old(self).hooks_spec(),
            final(self).input_spec() == old(self).input_spec(),
            final(self).pos() == 0,
    {
        self.consumed = 0;
    }

    /// The next item: `None` at the end of the input, an emitted token as
    /// `Ok((start, pattern, end))`, or the lexical error. Skip patterns are
    /// consumed invisibly on the way. On an error the cursor does not move,
    /// so further calls return the same error.
    pub fn next(&mut self) -> (r: Option<Result<(usize, usize, usize), Error>>)
        ensures
            final(self).model() == old(self).model(),
            final(self).hooks_spec() == old(self).hooks_spec(),
            final(self).input_spec() == old(self).input_spec(),
            old(self).pos() <= final(self).pos() <= old(self).input_spec().len(),
            match r {
                None => {
                    &&& old(self).remaining() == Seq::<Item>::empty()
                    &&& final(self).pos() == old(self).final_pos()
                    &&& final(self).remaining() == Seq::<Item>::empty()
                },
                Some(Ok((s, p, e))) => {
                    &&& old(self).remaining().len() > 0
                    &&& old(self).remaining()[0] == (Item::Token {
                        start: s as int,
                        pat: p as int,
                        end: e as int,
                    })
                    &&& old(self).pos() <= s < e
                    &&& e as int == final(self).pos()
                    &&& e <= old(self).input_spec().len()
                    &&& final(self).remaining() == old(self).remaining().skip(1)
                },
                Some(Err(err)) => {
                    &&& old(self).remaining().len() > 0
                    &&& old(self).remaining()[0] == (Item::Rejected { at: err.0 as int })
                    &&& final(self).pos() == err.0 as int
                    &&& final(self).remaining() == old(self).remaining()
                },
            },
    {
        proof {
            use_type_invariant(&*self);
            use_type_invariant(&*self.lexer);
        }
        let ghost m = self.model();
        let ghost h = self.hooks_spec();
        let ghost inp = self.input@;
        let ghost c0 = self.consumed as int;
        let n0 = self.input.len();
        loop
            invariant
                self.lexer == old(self).lexer,
                self.hooks == old(self).hooks,
                self.input == old(self).input,
                m == self.model(),
                h == self.hooks_spec(),
                inp == self.input@,
                m == old(self).model(),
                h == old(self).hooks_spec(),
                inp == old(self).input_spec(),
                c0 == old(self).pos(),
                model_wf(m),
                c0 <= self.consumed as int <= inp.len(),
                n0 == inp.len(),
                lex_output(m, h, inp, self.consumed as int) == lex_output(m, h, inp, c0),
                lex_end(m, h, inp, self.consumed as int) == lex_end(m, h, inp, c0),
            decreases inp.len() - self.consumed,
        {
            let start = self.consumed;
            let n = self.input.len();
            if start == n {
                return None;
            }
            let ghost c = start as int;
            let rem = slice_subrange(self.input, start, n);
            assert(rem@ == inp.subrange(c, inp.len() as int));
            match dfa_search_next(&self.lexer.dfa, self.lexer.start, rem) {
                None => {
                    assert(step_at(m, h, inp, c) == (Step::Reject { at: c }));
                    return Some(Err(Error(start)));
                },
                Some((p32, len)) => {
                    let ghost pn = p32 as nat;
                    let ghost ln = len as nat;
                    assert(scan_result(m.dfa, m.start, inp.subrange(c, inp.len() as int))
                        == Some((pn, ln)));
                    assert(1 <= len <= inp.len() - c);
                    assert(clamp_end(c, inp.len() as int, c + ln) == c + ln);
                    let p = p32 as usize;
                    if p >= self.lexer.n_tokens {
                        assert(step_at(m, h, inp, c) == (Step::Skip { end: c + ln }));
                        self.consumed = start + len;
                    } else {
                        let mut tok_len = len;
                        if self.lexer.more_flags[p] {
                            let matched = slice_subrange(self.input, start, start + len);
                            let tail = slice_subrange(self.input, start + len, n);
                            assert(matched@ == inp.subrange(c, c + ln));
                            assert(tail@ == inp.subrange(c + ln, inp.len() as int));
                            match self.hooks.more(p, matched, tail) {
                                None => {
                                    assert(step_at(m, h, inp, c) == (Step::Reject { at: c }));
                                    return Some(Err(Error(start)));
                                },
                                Some(extra) => {
                                    assert(h.more_spec(p, matched@, tail@)
                                        == Some(extra as nat));
                                    assert(start + len + extra <= inp.len());
                                    tok_len = len + extra;
                                    assert(step_at(m, h, inp, c) == (Step::Emit {
                                        start: c,
                                        pat: pn as int,
                                        end: c + len + extra,
                                    }));
                                },
                            }
                        } else {
                            assert(step_at(m, h, inp, c) == (Step::Emit {
                                start: c,
                                pat: pn as int,
                                end: c + ln,
                            }));
                        }
                        let end = start + tok_len;
                        let ghost out_c = lex_output(m, h, inp, c);
                        assert(out_c == seq![
                            Item::Token { start: c, pat: pn as int, end: end as int },
                        ] + lex_output(m, h, inp, end as int));
                        self.consumed = end;
                        proof {
                            let tok = Item::Token { start: c, pat: pn as int, end: end as int };
                            assert(out_c[0] == tok);
                            assert(out_c.skip(1) =~= lex_output(m, h, inp, end as int));
                        }
                        return Some(Ok((start, p, end)));
                    }
                },
            }
        }
    }
}

} // verus!
