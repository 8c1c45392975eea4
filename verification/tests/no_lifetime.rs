use lexi_matic::decl::{Declaration, VariantSpec};
use lexi_matic::hooks::NoMore;
use lexi_matic::lexer::CompiledLexer;

#[derive(Debug, PartialEq, Eq, Clone, Copy)]
enum Token {
    Import,
    Semi,
    Ident,
    Comment,
    Space,
}

fn variant(pat: usize) -> Token {
    match pat {
        0 => Token::Import,
        1 => Token::Semi,
        2 => Token::Ident,
        3 => Token::Comment,
        4 => Token::Space,
        _ => panic!("unexpected pattern {pat}"),
    }
}

fn token_decl() -> Declaration {
    Declaration {
        variants: vec![
            VariantSpec { token: Some("import".to_string()), regex: None, more: false },
            VariantSpec { token: Some(";".to_string()), regex: None, more: false },
            VariantSpec { token: None, regex: Some("[a-zA-Z_][a-zA-Z0-9_]*".to_string()), more: false },
            VariantSpec { token: None, regex: Some("//[^\n]*\n".to_string()), more: false },
            VariantSpec { token: None, regex: Some(r"[ \t\r\n\f]+".to_string()), more: false },
        ],
        skips: vec![],
    }
}

#[test]
fn test_tokens() {
    let lexer = CompiledLexer::compile(&token_decl()).unwrap();
    let hooks = NoMore;
    let input = "import // ...\nimport1;";
    let mut it = lexer.lex(input.as_bytes(), &hooks);
    let expected = [
        (0, Token::Import, 6),
        (6, Token::Space, 7),
        (7, Token::Comment, 14),
        (14, Token::Ident, 21),
        (21, Token::Semi, 22),
    ];
    let mut seen = 0;
    while let Some(t) = it.next() {
        let (s, p, e) = t.unwrap();
        assert_eq!((s, variant(p), e), expected[seen]);
        seen += 1;
    }
    assert_eq!(seen, expected.len());
}
