// Engine-level scenarios: empty input, longest match, hooks, declaration
// errors, restartability, determinism and sharing.

use lexi_matic::decl::{CompileError, Declaration, VariantSpec};
use lexi_matic::hooks::{NoMore, RawStringMore};
use lexi_matic::lexer::CompiledLexer;
use lexi_matic::Error;

fn token(s: &str) -> VariantSpec {
    VariantSpec { token: Some(s.to_string()), regex: None, more: false }
}

fn regex(s: &str) -> VariantSpec {
    VariantSpec { token: None, regex: Some(s.to_string()), more: false }
}

fn collect(lexer: &CompiledLexer, input: &str) -> Vec<Result<(usize, usize, usize), Error>> {
    let hooks = NoMore;
    let mut it = lexer.lex(input.as_bytes(), &hooks);
    let mut out = Vec::new();
    while let Some(r) = it.next() {
        let stop = r.is_err();
        out.push(r);
        if stop {
            break;
        }
    }
    out
}

#[test]
fn empty_input_ends_immediately() {
    let decl = Declaration { variants: vec![token("a")], skips: vec![] };
    let lexer = CompiledLexer::compile(&decl).unwrap();
    let hooks = NoMore;
    let mut it = lexer.lex("".as_bytes(), &hooks);
    assert!(it.next().is_none());
    assert!(it.next().is_none());
}

#[test]
fn longest_match_wins() {
    // A = 0, B = 1, Abc = 2: "aba" decomposes into single letters, while
    // "abc" is one Abc token because the longer match wins.
    let decl = Declaration {
        variants: vec![token("a"), token("b"), regex("[ab]*c")],
        skips: vec![],
    };
    let lexer = CompiledLexer::compile(&decl).unwrap();
    assert_eq!(collect(&lexer, "aba"), [Ok((0, 0, 1)), Ok((1, 1, 2)), Ok((2, 0, 3))]);
    assert_eq!(collect(&lexer, "abc"), [Ok((0, 2, 3))]);
}

#[test]
fn raw_string_hook_spans_whole_input() {
    // RawStr = 0 with the raw-string continuation hook.
    let decl = Declaration {
        variants: vec![VariantSpec { token: None, regex: Some(r##"r#*""##.to_string()), more: true }],
        skips: vec![],
    };
    let lexer = CompiledLexer::compile(&decl).unwrap();
    let hooks = RawStringMore;
    let input = r###"r#"abc"#"###;
    assert_eq!(input.len(), 8);
    let mut it = lexer.lex(input.as_bytes(), &hooks);
    assert_eq!(it.next(), Some(Ok((0, 0, 8))));
    assert_eq!(it.next(), None);
}

#[test]
fn raw_string_hook_refuses_unterminated() {
    let decl = Declaration {
        variants: vec![VariantSpec { token: None, regex: Some(r##"r#*""##.to_string()), more: true }],
        skips: vec![],
    };
    let lexer = CompiledLexer::compile(&decl).unwrap();
    let hooks = RawStringMore;
    let input = r##"r#"abc"##;
    let mut it = lexer.lex(input.as_bytes(), &hooks);
    assert_eq!(it.next(), Some(Err(Error(0))));
}

#[test]
fn error_does_not_advance() {
    // The engine pins the error-then-retry policy: the cursor stays at the
    // offending offset and every further call reports the same error.
    let decl = Declaration { variants: vec![token("ab")], skips: vec![] };
    let lexer = CompiledLexer::compile(&decl).unwrap();
    let hooks = NoMore;
    let mut it = lexer.lex("abax".as_bytes(), &hooks);
    assert_eq!(it.next(), Some(Ok((0, 0, 2))));
    assert_eq!(it.next(), Some(Err(Error(2))));
    assert_eq!(it.next(), Some(Err(Error(2))));
    assert_eq!(it.consumed(), 2);
}

#[test]
fn literal_metacharacters_are_escaped() {
    // Dot = 0 is a literal: it must match only ".", not any byte, which
    // pins the escaping of literals into their regex equivalent.
    let decl = Declaration { variants: vec![token(".")], skips: vec![] };
    let lexer = CompiledLexer::compile(&decl).unwrap();
    assert_eq!(collect(&lexer, "."), [Ok((0, 0, 1))]);
    assert_eq!(collect(&lexer, "x"), [Err(Error(0))]);
}

#[test]
fn missing_pattern_is_reported() {
    let decl = Declaration {
        variants: vec![token("a"), VariantSpec { token: None, regex: None, more: false }],
        skips: vec![],
    };
    assert_eq!(
        CompiledLexer::compile(&decl).err(),
        Some(CompileError::MissingPattern { variant: 1 })
    );
}

#[test]
fn duplicate_pattern_is_reported() {
    let decl = Declaration {
        variants: vec![VariantSpec { token: Some("a".to_string()), regex: Some("a".to_string()), more: false }],
        skips: vec![],
    };
    assert_eq!(
        CompiledLexer::compile(&decl).err(),
        Some(CompileError::DuplicatePattern { variant: 0 })
    );
}

#[test]
fn malformed_regex_is_reported() {
    let decl = Declaration { variants: vec![regex("[")], skips: vec![] };
    assert_eq!(CompiledLexer::compile(&decl).err(), Some(CompileError::Regex));
}

#[test]
fn skip_patterns_stay_invisible() {
    // Ident = 0; whitespace is skipped: only identifiers come out, and the
    // gaps between them are exactly the skipped spans.
    let decl = Declaration {
        variants: vec![regex("[a-z]+")],
        skips: vec![" +".to_string()],
    };
    let lexer = CompiledLexer::compile(&decl).unwrap();
    let input = "foo  bar baz";
    let toks = collect(&lexer, input);
    assert_eq!(toks, [Ok((0, 0, 3)), Ok((5, 0, 8)), Ok((9, 0, 12))]);
    // Coverage: tokens and gaps tile the input completely.
    let mut at = 0;
    let mut rebuilt = String::new();
    for t in &toks {
        let (s, _, e) = t.as_ref().unwrap();
        assert!(at <= *s && *s < *e);
        rebuilt.push_str(&input[at..*s]);
        rebuilt.push_str(&input[*s..*e]);
        at = *e;
    }
    rebuilt.push_str(&input[at..]);
    assert_eq!(rebuilt, input);
    assert_eq!(at, input.len());
}

#[test]
fn trailing_skip_consumes_to_end() {
    let decl = Declaration { variants: vec![regex("[a-z]+")], skips: vec![" +".to_string()] };
    let lexer = CompiledLexer::compile(&decl).unwrap();
    let hooks = NoMore;
    let mut it = lexer.lex("ab   ".as_bytes(), &hooks);
    assert_eq!(it.next(), Some(Ok((0, 0, 2))));
    assert_eq!(it.next(), None);
    assert_eq!(it.consumed(), 5);
}

#[test]
fn restart_replays_the_sequence() {
    let decl = Declaration { variants: vec![regex("[a-z]+")], skips: vec![" +".to_string()] };
    let lexer = CompiledLexer::compile(&decl).unwrap();
    let hooks = NoMore;
    let mut it = lexer.lex("one two".as_bytes(), &hooks);
    let mut first = Vec::new();
    while let Some(r) = it.next() {
        first.push(r);
    }
    it.restart();
    assert_eq!(it.consumed(), 0);
    let mut second = Vec::new();
    while let Some(r) = it.next() {
        second.push(r);
    }
    assert_eq!(first, second);
    assert_eq!(first, [Ok((0, 0, 3)), Ok((4, 0, 7))]);
}

#[test]
fn iterators_are_deterministic() {
    let decl = Declaration {
        variants: vec![token("import"), token(";"), regex("[a-zA-Z_][a-zA-Z0-9_]*")],
        skips: vec![r"[ \t\r\n\f]+".to_string()],
    };
    let lexer = CompiledLexer::compile(&decl).unwrap();
    let input = "import foo;";
    assert_eq!(collect(&lexer, input), collect(&lexer, input));
}

#[test]
fn one_lexer_drives_independent_iterators() {
    // Two iterators share one compiled lexer on distinct inputs; stepping
    // them interleaved gives the same results as running each alone.
    let decl = Declaration { variants: vec![regex("[a-z]+")], skips: vec![" +".to_string()] };
    let lexer = CompiledLexer::compile(&decl).unwrap();
    let hooks = NoMore;
    let alone_a = collect(&lexer, "aa bb");
    let alone_b = collect(&lexer, "c dd e");
    let mut it_a = lexer.lex("aa bb".as_bytes(), &hooks);
    let mut it_b = lexer.lex("c dd e".as_bytes(), &hooks);
    let mut inter_a = Vec::new();
    let mut inter_b = Vec::new();
    loop {
        let ra = it_a.next();
        let rb = it_b.next();
        if let Some(r) = ra {
            inter_a.push(r);
        }
        if let Some(r) = rb {
            inter_b.push(r);
        }
        if inter_a.len() == alone_a.len() && inter_b.len() == alone_b.len() {
            break;
        }
    }
    assert_eq!(inter_a, alone_a);
    assert_eq!(inter_b, alone_b);
}

#[test]
fn token_pattern_count_splits_ids() {
    let decl = Declaration {
        variants: vec![token("a"), token("b")],
        skips: vec![" +".to_string(), "\t+".to_string()],
    };
    let lexer = CompiledLexer::compile(&decl).unwrap();
    assert_eq!(lexer.token_pattern_count(), 2);
}

#[test]
fn zero_token_declaration_skips_everything() {
    let decl = Declaration { variants: vec![], skips: vec!["[a-z ]+".to_string()] };
    let lexer = CompiledLexer::compile(&decl).unwrap();
    let hooks = NoMore;
    let mut it = lexer.lex("all skipped".as_bytes(), &hooks);
    assert_eq!(it.next(), None);
    assert_eq!(it.consumed(), 11);
}

#[test]
fn dfa_blob_round_trip() {
    // Two blobs are emitted, one per endianness; exactly the one matching the
    // target deserializes, and the revived lexer behaves like the original.
    let decl = Declaration {
        variants: vec![token("import"), token(";"), regex("[a-zA-Z_][a-zA-Z0-9_]*")],
        skips: vec![r"[ \t\r\n\f]+".to_string()],
    };
    let lexer = CompiledLexer::compile(&decl).unwrap();
    let little = lexer.dfa_bytes_little_endian();
    let big = lexer.dfa_bytes_big_endian();
    let flags = vec![false, false, false];
    let from_little = CompiledLexer::from_dfa_bytes(&little, flags.clone());
    let from_big = CompiledLexer::from_dfa_bytes(&big, flags.clone());
    assert!(from_little.is_ok() != from_big.is_ok());
    let revived = from_little.or(from_big).unwrap();
    assert_eq!(revived.token_pattern_count(), 3);
    let input = "import foo;";
    assert_eq!(collect(&revived, input), collect(&lexer, input));
    assert_eq!(collect(&revived, input), [Ok((0, 0, 6)), Ok((7, 2, 10)), Ok((10, 1, 11))]);
}

#[test]
fn wrong_endian_blob_is_rejected() {
    let decl = Declaration { variants: vec![token("a")], skips: vec![] };
    let lexer = CompiledLexer::compile(&decl).unwrap();
    let little = lexer.dfa_bytes_little_endian();
    let big = lexer.dfa_bytes_big_endian();
    let rejected = if CompiledLexer::from_dfa_bytes(&little, vec![false]).is_ok() {
        CompiledLexer::from_dfa_bytes(&big, vec![false])
    } else {
        CompiledLexer::from_dfa_bytes(&little, vec![false])
    };
    assert_eq!(rejected.err(), Some(CompileError::BadBlob));
}

#[test]
fn corrupt_blob_is_rejected() {
    assert_eq!(
        CompiledLexer::from_dfa_bytes(&[1, 2, 3, 4, 5, 6, 7, 8], vec![]).err(),
        Some(CompileError::BadBlob)
    );
}
