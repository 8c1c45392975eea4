// Scenarios around longest-match and prefix tie-breaking.

use lexi_matic::decl::{Declaration, VariantSpec};
use lexi_matic::hooks::NoMore;
use lexi_matic::lexer::CompiledLexer;

fn token(s: &str) -> VariantSpec {
    VariantSpec { token: Some(s.to_string()), regex: None, more: false }
}

fn regex(s: &str) -> VariantSpec {
    VariantSpec { token: None, regex: Some(s.to_string()), more: false }
}

#[test]
fn test_279() {
    // Backslash = 0, DoubleBackslash = 1, EnvironmentBegin = 2,
    // EnvironmentEnd = 3, DocumentBegin = 4, MacroName = 5.
    let decl = Declaration {
        variants: vec![
            token(r"\"),
            token(r"\\"),
            token(r"\begin"),
            token(r"\end"),
            token(r"\begin{document}"),
            regex(r"\\[a-zA-Z]+"),
        ],
        skips: vec![],
    };
    let lexer = CompiledLexer::compile(&decl).unwrap();
    let hooks = NoMore;
    let mut tokens = lexer.lex(r"\begin{equation}".as_bytes(), &hooks);
    let t = tokens.next().unwrap().unwrap();
    assert!(matches!(t, (0, 2, 6)));
}

#[test]
fn test_315() {
    // A = 0, B = 1, Abc = 2.
    let decl = Declaration {
        variants: vec![token("a"), token("b"), regex(r"[ab]*c")],
        skips: vec![],
    };
    let lexer = CompiledLexer::compile(&decl).unwrap();
    let hooks = NoMore;
    let mut it = lexer.lex("aba".as_bytes(), &hooks);
    let mut pats = Vec::new();
    while let Some(t) = it.next() {
        pats.push(t.unwrap().1);
    }
    assert!(pats == [0, 1, 0]);
}

#[test]
fn test_349() {
    // Foo = 0.
    let decl = Declaration { variants: vec![token("FOOB")], skips: vec![] };
    let lexer = CompiledLexer::compile(&decl).unwrap();
    let hooks = NoMore;
    let mut lex = lexer.lex("ZAP".as_bytes(), &hooks);
    assert!(lex.next().unwrap().is_err());
}
