use macro_stringify::assemble::{assemble, reparse};
use macro_stringify::lexeme::{walk, Lexeme};
use macro_stringify::render::render;
use macro_stringify::scan::{scan, LexError};
use macro_stringify::token::{Delimiter, LiteralKind, Token, TokenItem, TokenTree};

fn ident(text: &str) -> TokenItem {
    TokenItem::Token(Token::identifier(text))
}

fn integer(text: &str) -> TokenItem {
    TokenItem::Token(Token::literal(LiteralKind::Integer, text))
}

fn punct(symbol: char, joint: bool) -> TokenItem {
    TokenItem::Token(Token::punctuation(symbol, joint))
}

fn tree(items: Vec<TokenItem>) -> TokenTree {
    TokenTree { items }
}

fn group(delimiter: Delimiter, items: Vec<TokenItem>) -> TokenItem {
    TokenItem::group(delimiter, tree(items))
}

fn rendered_twice(capture: &TokenTree) -> (String, String) {
    let once = render(capture);
    let again = render(&reparse(&once).expect("rendered text reads back"));
    (once, again)
}

#[test]
fn empty_text_reads_as_empty_tree() {
    assert_eq!(reparse(""), Ok(TokenTree::new()));
    assert_eq!(reparse(" \t\r\n "), Ok(TokenTree::new()));
}

#[test]
fn let_binding_reads_back() {
    let expected = tree(vec![ident("let"), ident("a"), punct('=', false), integer("2")]);
    assert_eq!(reparse("let a = 2"), Ok(expected));
}

#[test]
fn adjacency_sets_the_joint_flag() {
    let expected = tree(vec![ident("a"), punct(':', true), punct(':', true), ident("b")]);
    assert_eq!(reparse("a::b"), Ok(expected));
    let spaced = tree(vec![ident("a"), punct(':', true), punct(':', false), ident("b")]);
    assert_eq!(reparse("a :: b"), Ok(spaced));
    let last = tree(vec![ident("a"), punct('+', false)]);
    assert_eq!(reparse("a+"), Ok(last));
}

#[test]
fn groups_read_back_nested() {
    let expected = tree(vec![
        ident("f"),
        group(
            Delimiter::Parenthesis,
            vec![ident("a"), punct(',', false), group(Delimiter::Bracket, vec![ident("b")])],
        ),
    ]);
    assert_eq!(reparse("f(a, [b])"), Ok(expected));
    assert_eq!(reparse("{ }"), Ok(tree(vec![group(Delimiter::Brace, vec![])])));
    assert_eq!(reparse("{}"), Ok(tree(vec![group(Delimiter::Brace, vec![])])));
}

#[test]
fn quoted_literals_read_back_without_quotes() {
    let expected = tree(vec![
        TokenItem::Token(Token::literal(LiteralKind::Str, "a\\\"b ( c")),
        TokenItem::Token(Token::literal(LiteralKind::Char, "\\'")),
        TokenItem::Token(Token::literal(LiteralKind::Str, "")),
    ]);
    assert_eq!(reparse("\"a\\\"b ( c\" '\\'' \"\""), Ok(expected));
}

#[test]
fn identifiers_and_integers_take_the_longest_run() {
    let expected = tree(vec![ident("_x1"), integer("42"), ident("abc")]);
    assert_eq!(reparse("_x1 42abc"), Ok(expected));
}

#[test]
fn unexpected_character_is_reported() {
    assert_eq!(reparse("a ` b"), Err(LexError::UnexpectedCharacter));
    assert_eq!(reparse("\\"), Err(LexError::UnexpectedCharacter));
    assert_eq!(reparse("é"), Err(LexError::UnexpectedCharacter));
}

#[test]
fn unterminated_literal_is_reported() {
    assert_eq!(reparse("\"abc"), Err(LexError::UnterminatedLiteral));
    assert_eq!(reparse("\"abc\\\""), Err(LexError::UnterminatedLiteral));
    assert_eq!(reparse("'a"), Err(LexError::UnterminatedLiteral));
    assert_eq!(reparse("\"abc\\"), Err(LexError::UnterminatedLiteral));
}

#[test]
fn unbalanced_delimiters_are_reported() {
    assert_eq!(reparse("( a"), Err(LexError::UnbalancedDelimiter));
    assert_eq!(reparse(")"), Err(LexError::UnbalancedDelimiter));
    assert_eq!(reparse("( ]"), Err(LexError::UnbalancedDelimiter));
    assert_eq!(reparse("{ ( }"), Err(LexError::UnbalancedDelimiter));
}

#[test]
fn lexical_errors_come_before_unbalanced_delimiters() {
    assert_eq!(reparse("( `"), Err(LexError::UnexpectedCharacter));
    assert_eq!(reparse(") \"x"), Err(LexError::UnterminatedLiteral));
}

#[test]
fn scan_gives_lexemes_in_order() {
    let read = scan("a+(1)").expect("valid text");
    let expected = vec![
        Lexeme::Token(Token::identifier("a")),
        Lexeme::Token(Token::punctuation('+', true)),
        Lexeme::Open(Delimiter::Parenthesis),
        Lexeme::Token(Token::literal(LiteralKind::Integer, "1")),
        Lexeme::Close(Delimiter::Parenthesis),
    ];
    assert_eq!(read, expected);
}

#[test]
fn scan_does_not_check_nesting() {
    let read = scan(") (").expect("valid lexemes");
    assert_eq!(
        read,
        vec![Lexeme::Close(Delimiter::Parenthesis), Lexeme::Open(Delimiter::Parenthesis)]
    );
}

#[test]
fn assemble_gathers_groups() {
    let lexemes = vec![
        Lexeme::Open(Delimiter::Brace),
        Lexeme::Token(Token::identifier("x")),
        Lexeme::Close(Delimiter::Brace),
        Lexeme::Token(Token::identifier("y")),
    ];
    let expected = tree(vec![group(Delimiter::Brace, vec![ident("x")]), ident("y")]);
    assert_eq!(assemble(&lexemes), Ok(expected));
    assert_eq!(assemble(&Vec::new()), Ok(TokenTree::new()));
}

#[test]
fn assemble_rejects_what_does_not_nest() {
    let open = vec![Lexeme::Open(Delimiter::Brace)];
    assert_eq!(assemble(&open), Err(LexError::UnbalancedDelimiter));
    let crossed = vec![Lexeme::Open(Delimiter::Brace), Lexeme::Close(Delimiter::Bracket)];
    assert_eq!(assemble(&crossed), Err(LexError::UnbalancedDelimiter));
}

#[test]
fn walk_is_depth_first_and_left_to_right() {
    let capture = tree(vec![
        ident("a"),
        group(
            Delimiter::Brace,
            vec![group(Delimiter::Invisible, vec![ident("b")]), punct(';', false)],
        ),
    ]);
    let expected = vec![
        Lexeme::Token(Token::identifier("a")),
        Lexeme::Open(Delimiter::Brace),
        Lexeme::Token(Token::identifier("b")),
        Lexeme::Token(Token::punctuation(';', false)),
        Lexeme::Close(Delimiter::Brace),
    ];
    assert_eq!(walk(&capture), expected);
}

#[test]
fn assemble_undoes_walk() {
    let capture = tree(vec![
        ident("a"),
        group(Delimiter::Brace, vec![group(Delimiter::Parenthesis, vec![]), ident("b")]),
    ]);
    assert_eq!(assemble(&walk(&capture)), Ok(capture));
}

#[test]
fn rendering_is_idempotent_through_reparse() {
    let captures = vec![
        TokenTree::new(),
        tree(vec![ident("let"), ident("a"), punct('=', false), integer("2")]),
        tree(vec![group(Delimiter::Brace, vec![])]),
        tree(vec![group(Delimiter::Brace, vec![ident("x"), punct(';', false), ident("y")])]),
        tree(vec![ident("a"), punct(':', true), punct(':', false), ident("b")]),
        tree(vec![punct('-', true), punct('>', true)]),
        tree(vec![
            ident("a"),
            group(Delimiter::Invisible, vec![punct('+', true)]),
            group(Delimiter::Invisible, vec![]),
            TokenItem::Token(Token::literal(LiteralKind::Str, "{ \\\" (")),
        ]),
        tree(vec![group(Delimiter::Parenthesis, vec![ident("a"), punct('+', true)])]),
    ];
    for capture in &captures {
        let (once, again) = rendered_twice(capture);
        assert_eq!(once, again);
    }
}

#[test]
fn rendered_text_reads_back_as_the_canonical_tree() {
    let capture = tree(vec![
        ident("a"),
        group(Delimiter::Invisible, vec![group(Delimiter::Brace, vec![ident("b")])]),
        group(Delimiter::Invisible, vec![punct('+', true)]),
    ]);
    let canonical = tree(vec![
        ident("a"),
        group(Delimiter::Brace, vec![ident("b")]),
        punct('+', false),
    ]);
    assert_eq!(render(&capture), "a { b } +");
    assert_eq!(reparse(&render(&capture)), Ok(canonical));
}

#[test]
fn rendered_text_keeps_delimiters_in_nesting_order() {
    let capture = tree(vec![
        group(
            Delimiter::Brace,
            vec![
                group(Delimiter::Parenthesis, vec![ident("a")]),
                TokenItem::Token(Token::literal(LiteralKind::Str, ")]")),
                group(Delimiter::Bracket, vec![]),
            ],
        ),
    ]);
    let text = render(&capture);
    assert_eq!(text, "{ ( a ) \")]\" [ ] }");
    let delimiters: Vec<Lexeme> = scan(&text)
        .expect("rendered text scans")
        .into_iter()
        .filter(|lexeme| !matches!(lexeme, Lexeme::Token(_)))
        .collect();
    let expected = vec![
        Lexeme::Open(Delimiter::Brace),
        Lexeme::Open(Delimiter::Parenthesis),
        Lexeme::Close(Delimiter::Parenthesis),
        Lexeme::Open(Delimiter::Bracket),
        Lexeme::Close(Delimiter::Bracket),
        Lexeme::Close(Delimiter::Brace),
    ];
    assert_eq!(delimiters, expected);
}

#[test]
fn block_with_statements_renders_on_one_line() {
    let source = "{
        testing stringify
        for i := range 1...123 {
            println!(\"go go go\")
        }
        let x = 123;
    }";
    let capture = reparse(source).expect("valid source");
    let text = render(&capture);
    assert_eq!(
        text,
        "{ testing stringify for i := range 1 ...123 { println !( \"go go go\" ) } let x = 123 ; }"
    );
    assert_eq!(render(&reparse(&text).expect("rendered text reads back")), text);
}
