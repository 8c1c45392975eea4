//! The declaration surface: the ordered pattern table a lexer is built from.
//!
//! A declaration lists its token variants in order — each bound to exactly
//! one of a literal (`token`) or a regular expression (`regex`), optionally
//! with a continuation hook (`more`) — followed by the skip patterns. The
//! table compiles into one list of regex sources: token patterns first, in
//! declaration order, with literals escaped into their regex equivalent, then
//! the skip patterns, so that skip pattern identifiers occupy the high end.

use vstd::prelude::*;

verus! {

/// One token variant of a declaration: exactly one of `token` (a literal to
/// be matched verbatim) or `regex` must be present; `more` attaches a
/// continuation hook to the variant.
pub struct VariantSpec {
    pub token: Option<String>,
    pub regex: Option<String>,
    pub more: bool,
}

/// A full declaration: the token variants in declaration order, then the
/// regexes whose matches are silently skipped.
pub struct Declaration {
    pub variants: Vec<VariantSpec>,
    pub skips: Vec<String>,
}

/// A declaration-time error. These are fatal: no automaton is produced.
#[derive(Debug, Clone, Copy, PartialEq, Eq, Structural)]
pub enum CompileError {
    /// The variant at this index has neither a `token` nor a `regex` binding.
    MissingPattern { variant: usize },
    /// The variant at this index has both a `token` and a `regex` binding.
    DuplicatePattern { variant: usize },
    /// The pattern set could not be compiled into an automaton (a malformed
    /// or unsupported regex, or an automaton without anchored start states).
    Regex,
    /// A serialised automaton was rejected: misaligned, built for the other
    /// endianness, corrupt, or without anchored start states.
    BadBlob,
}

/// Whether a variant carries exactly one of the two pattern bindings.
pub open spec fn variant_ok(v: VariantSpec) -> bool {
    (v.token is Some) <==> !(v.regex is Some)
}

/// Whether every variant of the declaration is well-bound.
pub open spec fn decl_ok(d: Declaration) -> bool {
    forall|i: int| 0 <= i < d.variants@.len() ==> variant_ok(#[trigger] d.variants@[i])
}

/// The characters `regex_syntax` treats as meta characters, which escaping a
/// literal must precede with a backslash.
pub open spec fn is_regex_meta(c: char) -> bool {
    ||| c == '\\'
    ||| c == '.'
    ||| c == '+'
    ||| c == '*'
    ||| c == '?'
    ||| c == '('
    ||| c == ')'
    ||| c == '|'
    ||| c == '['
    ||| c == ']'
    ||| c == '{'
    ||| c == '}'
    ||| c == '^'
    ||| c == '$'
    ||| c == '#'
    ||| c == '&'
    ||| c == '-'
    ||| c == '~'
}

/// The regex equivalent of a literal: each character in order, with a
/// backslash prepended to every meta character.
pub open spec fn escape_spec(s: Seq<char>) -> Seq<char>
    decreases s.len(),
{
    if s.len() == 0 {
        Seq::empty()
    } else {
        (if is_regex_meta(s[0]) {
            seq!['\\', s[0]]
        } else {
            seq![s[0]]
        }) + escape_spec(s.skip(1))
    }
}

/// Relies on `regex_syntax::escape`: appends each character of the input in
/// order, preceding every meta character with a backslash, so that the result
/// matches the input verbatim as a regex.
#[verifier::external_body]
pub(crate) fn escape_literal(s: &str) -> (r: String)
    ensures
        r@ == escape_spec(s@),
{
    regex_syntax::escape(s)
}

/// The regex source a single variant contributes: its regex verbatim, or its
/// literal escaped.
pub open spec fn variant_source(v: VariantSpec) -> Seq<char> {
    if v.token is Some {
        escape_spec(v.token->0@)
    } else {
        v.regex->0@
    }
}

/// The full ordered list of regex sources of a declaration: the token
/// patterns in declaration order, then the skip patterns.
pub open spec fn decl_sources(d: Declaration) -> Seq<Seq<char>> {
    d.variants@.map(|i: int, v: VariantSpec| variant_source(v))
        + d.skips@.map(|i: int, s: String| s@)
}

/// Builds the regex source list of a declaration, validating it on the way:
/// returns the sources exactly as [`decl_sources`] states them, or reports
/// the lowest-indexed variant that is missing a pattern binding or carries
/// both.
pub fn pattern_sources(decl: &Declaration) -> (r: Result<Vec<String>, CompileError>)
    ensures
        match r {
            Ok(sources) => decl_ok(*decl) && sources@.map(
                |i: int, s: String| s@,
            ) == decl_sources(*decl),
            Err(e) => match e {
                CompileError::MissingPattern { variant } => variant < decl.variants@.len()
                    && decl.variants@[variant as int].token is None
                    && decl.variants@[variant as int].regex is None
                    && (forall|j: int| 0 <= j < variant ==> variant_ok(#[trigger] decl.variants@[j])),
                CompileError::DuplicatePattern { variant } => variant < decl.variants@.len()
                    && decl.variants@[variant as int].token is Some
                    && decl.variants@[variant as int].regex is Some
                    && (forall|j: int| 0 <= j < variant ==> variant_ok(#[trigger] decl.variants@[j])),
                CompileError::Regex => false,
                CompileError::BadBlob => false,
            },
        },
{
    let ghost d = *decl;
    let mut sources: Vec<String> = Vec::new();
    let mut i: usize = 0;
    while i < decl.variants.len()
        invariant
            d == *decl,
            0 <= i <= decl.variants@.len(),
            sources@.len() == i,
            forall|j: int| 0 <= j < i ==> variant_ok(#[trigger] decl.variants@[j]),
            forall|j: int| 0 <= j < i ==> #[trigger] sources@[j]@ == variant_source(
                decl.variants@[j],
            ),
        decreases decl.variants@.len() - i,
    {
        let v = &decl.variants[i];
        match (&v.token, &v.regex) {
            (Some(_), Some(_)) => {
                return Err(CompileError::DuplicatePattern { variant: i });
            },
            (None, None) => {
                return Err(CompileError::MissingPattern { variant: i });
            },
            (Some(lit), None) => {
                sources.push(escape_literal(lit.as_str()));
            },
            (None, Some(re)) => {
                sources.push(re.clone());
            },
        }
        i = i + 1;
    }
    let mut k: usize = 0;
    while k < decl.skips.len()
        invariant
            d == *decl,
            0 <= k <= decl.skips@.len(),
            sources@.len() == decl.variants@.len() + k,
            forall|j: int| 0 <= j < decl.variants@.len() ==> #[trigger] sources@[j]@
                == variant_source(decl.variants@[j]),
            forall|j: int| 0 <= j < k ==> #[trigger] sources@[decl.variants@.len() + j]@
                == decl.skips@[j]@,
            decl_ok(*decl),
        decreases decl.skips@.len() - k,
    {
        sources.push(decl.skips[k].clone());
        k = k + 1;
    }
    proof {
        let mapped = sources@.map(|i: int, s: String| s@);
        assert forall|j: int| 0 <= j < mapped.len() implies mapped[j] == decl_sources(*decl)[j] by {
            assert(mapped[j] == sources@[j]@);
            if j < decl.variants@.len() {
                assert(sources@[j]@ == variant_source(decl.variants@[j]));
            } else {
                let j2 = j - decl.variants@.len();
                assert(sources@[decl.variants@.len() + j2]@ == decl.skips@[j2]@);
            }
        }
        assert(sources@.map(|i: int, s: String| s@) =~= decl_sources(*decl));
    }
    Ok(sources)
}

} // verus!
