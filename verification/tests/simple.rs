use lexi_matic::decl::{Declaration, VariantSpec};
use lexi_matic::hooks::RawStringMore;
use lexi_matic::lexer::CompiledLexer;

#[derive(Debug, PartialEq, Eq)]
enum Token<'a> {
    Import,
    Semi,
    Ident(&'a str),
    RawStr(&'a str),
}

fn token_decl() -> Declaration {
    Declaration {
        variants: vec![
            VariantSpec { token: Some("import".to_string()), regex: None, more: false },
            VariantSpec { token: Some(";".to_string()), regex: None, more: false },
            VariantSpec { token: None, regex: Some("[a-zA-Z_][a-zA-Z0-9_]*".to_string()), more: false },
            VariantSpec { token: None, regex: Some(r##"r#*""##.to_string()), more: true },
        ],
        skips: vec!["//[^\n]*".to_string(), r"[ \t\r\n\f]+".to_string()],
    }
}

fn construct<'a>(input: &'a str, start: usize, pat: usize, end: usize) -> Token<'a> {
    let text = &input[start..end];
    match pat {
        0 => Token::Import,
        1 => Token::Semi,
        2 => Token::Ident(text),
        3 => Token::RawStr(text),
        _ => panic!("unexpected pattern {pat}"),
    }
}

#[test]
fn simple_test_tokens() {
    let lexer = CompiledLexer::compile(&token_decl()).unwrap();
    let hooks = RawStringMore;
    let input = r####"import // ...
import1; r#"abc"#"####;
    let mut it = lexer.lex(input.as_bytes(), &hooks);
    let expected = [
        (0, Token::Import, 6),
        (14, Token::Ident("import1"), 21),
        (21, Token::Semi, 22),
        (23, Token::RawStr(r###"r#"abc"#"###), 31),
    ];
    let mut seen = 0;
    while let Some(t) = it.next() {
        let (s, p, e) = t.unwrap();
        assert_eq!((s, construct(input, s, p, e), e), expected[seen]);
        seen += 1;
    }
    assert_eq!(seen, expected.len());
}
