use datalang::lexer::lex;
use datalang::tokens::Token;

fn texts(source: &str) -> Vec<String> {
    lex(source)
        .into_iter()
        .map(|t| match t {
            Token::Ident(s) => format!("ident {}", s),
            Token::Literal(s) => format!("literal {}", s),
            Token::Other(s) => format!("other {}", s),
            Token::Plus => "+".to_string(),
            Token::Minus => "-".to_string(),
            Token::PathSep => "::".to_string(),
            Token::Pound => "#".to_string(),
            Token::Less => "<".to_string(),
            Token::OpenBrace => "{".to_string(),
            Token::CloseBrace => "}".to_string(),
            Token::OpenBracket => "[".to_string(),
            Token::CloseBracket => "]".to_string(),
        })
        .collect()
}

#[test]
fn lexer_reads_every_token() {
    assert!(texts("").is_empty());
    assert!(texts("  \t ").is_empty());
    assert_eq!(texts("+Base::Name"), vec!["+", "ident Base", "::", "ident Name"]);
    assert_eq!(texts(" - a :: b "), vec!["-", "ident a", "::", "ident b"]);
    assert_eq!(
        texts("#[length<10]name}"),
        vec!["#", "[", "ident length", "<", "literal 10", "]", "ident name", "}"]
    );
    assert_eq!(texts("{ a:b }"), vec!["{", "ident a", "other :", "ident b", "}"]);
    assert_eq!(texts(":::"), vec!["::", "other :"]);
    assert_eq!(texts("9lives _x é"), vec!["literal 9lives", "ident _x", "ident é"]);
}

#[test]
fn lexer_skips_comments() {
    assert!(texts("// nothing").is_empty());
    assert_eq!(texts("} // the end }"), vec!["}"]);
    assert_eq!(texts("a//b"), vec!["ident a//b"]);
    assert_eq!(texts("a / b"), vec!["ident a", "ident /", "ident b"]);
    assert_eq!(texts("+ //"), vec!["+"]);
}
