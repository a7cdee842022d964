use macro_stringify::token::{Delimiter, Group, LiteralKind, Token, TokenItem, TokenTree};

fn tree(items: Vec<TokenItem>) -> TokenTree {
    TokenTree { items }
}

#[test]
fn identifier_text_must_be_a_word() {
    assert!(Token::identifier("let").is_well_formed());
    assert!(Token::identifier("_x1").is_well_formed());
    assert!(Token::identifier("_").is_well_formed());
    assert!(!Token::identifier("").is_well_formed());
    assert!(!Token::identifier("a b").is_well_formed());
    assert!(!Token::identifier("9a").is_well_formed());
    assert!(!Token::identifier("a-b").is_well_formed());
}

#[test]
fn integer_text_must_be_digits() {
    assert!(Token::literal(LiteralKind::Integer, "0").is_well_formed());
    assert!(Token::literal(LiteralKind::Integer, "123").is_well_formed());
    assert!(!Token::literal(LiteralKind::Integer, "").is_well_formed());
    assert!(!Token::literal(LiteralKind::Integer, "1a").is_well_formed());
    assert!(!Token::literal(LiteralKind::Integer, "-1").is_well_formed());
}

#[test]
fn quoted_text_must_not_close_its_literal() {
    assert!(Token::literal(LiteralKind::Str, "").is_well_formed());
    assert!(Token::literal(LiteralKind::Str, "go go go").is_well_formed());
    assert!(Token::literal(LiteralKind::Str, "a\\\"b").is_well_formed());
    assert!(Token::literal(LiteralKind::Str, "it's").is_well_formed());
    assert!(!Token::literal(LiteralKind::Str, "a\"b").is_well_formed());
    assert!(!Token::literal(LiteralKind::Str, "a\\").is_well_formed());
    assert!(Token::literal(LiteralKind::Char, "x").is_well_formed());
    assert!(Token::literal(LiteralKind::Char, "\\'").is_well_formed());
    assert!(Token::literal(LiteralKind::Char, "\"").is_well_formed());
    assert!(!Token::literal(LiteralKind::Char, "'").is_well_formed());
}

#[test]
fn punctuation_must_be_a_punctuation_character() {
    for symbol in "!#$%&*+,-./:;<=>?@^|~".chars() {
        assert!(Token::punctuation(symbol, false).is_well_formed());
        assert!(Token::punctuation(symbol, true).is_well_formed());
    }
    for symbol in "a1_ (){}[]\"'\\`".chars() {
        assert!(!Token::punctuation(symbol, false).is_well_formed());
    }
}

#[test]
fn tree_is_well_formed_when_every_token_is() {
    let good = tree(vec![
        TokenItem::Token(Token::identifier("a")),
        TokenItem::group(
            Delimiter::Brace,
            tree(vec![TokenItem::group(
                Delimiter::Invisible,
                tree(vec![TokenItem::Token(Token::punctuation(';', true))]),
            )]),
        ),
    ]);
    assert!(good.is_well_formed());
    assert!(TokenTree::new().is_well_formed());
    let bad = tree(vec![
        TokenItem::Token(Token::identifier("a")),
        TokenItem::group(
            Delimiter::Brace,
            tree(vec![TokenItem::group(
                Delimiter::Invisible,
                tree(vec![TokenItem::Token(Token::identifier("not a word"))]),
            )]),
        ),
    ]);
    assert!(!bad.is_well_formed());
    assert!(!bad.items[1].is_well_formed());
    assert!(bad.items[0].is_well_formed());
}

#[test]
fn builders_give_the_variants() {
    assert_eq!(Token::identifier("a"), Token::Identifier("a".to_string()));
    assert_eq!(
        Token::literal(LiteralKind::Str, "s"),
        Token::Literal(LiteralKind::Str, "s".to_string())
    );
    assert_eq!(Token::punctuation('+', true), Token::Punctuation('+', true));
    assert_eq!(
        TokenItem::group(Delimiter::Bracket, TokenTree::new()),
        TokenItem::Group(Group { delimiter: Delimiter::Bracket, body: TokenTree::new() })
    );
}

#[test]
fn push_appends_and_len_counts_top_items() {
    let mut capture = TokenTree::new();
    assert_eq!(capture.len(), 0);
    capture.push(TokenItem::Token(Token::identifier("a")));
    capture.push(TokenItem::group(
        Delimiter::Brace,
        tree(vec![TokenItem::Token(Token::identifier("b")), TokenItem::Token(Token::identifier("c"))]),
    ));
    assert_eq!(capture.len(), 2);
    assert_eq!(capture.items[0], TokenItem::Token(Token::identifier("a")));
}

#[test]
fn equality_is_structural() {
    let a = tree(vec![
        TokenItem::Token(Token::punctuation('+', true)),
        TokenItem::group(Delimiter::Brace, tree(vec![TokenItem::Token(Token::identifier("x"))])),
    ]);
    let same = tree(vec![
        TokenItem::Token(Token::punctuation('+', true)),
        TokenItem::group(Delimiter::Brace, tree(vec![TokenItem::Token(Token::identifier("x"))])),
    ]);
    let other_flag = tree(vec![
        TokenItem::Token(Token::punctuation('+', false)),
        TokenItem::group(Delimiter::Brace, tree(vec![TokenItem::Token(Token::identifier("x"))])),
    ]);
    let other_delimiter = tree(vec![
        TokenItem::Token(Token::punctuation('+', true)),
        TokenItem::group(Delimiter::Bracket, tree(vec![TokenItem::Token(Token::identifier("x"))])),
    ]);
    let other_depth = tree(vec![
        TokenItem::Token(Token::punctuation('+', true)),
        TokenItem::group(Delimiter::Brace, tree(vec![TokenItem::Token(Token::identifier("y"))])),
    ]);
    let shorter = tree(vec![TokenItem::Token(Token::punctuation('+', true))]);
    assert_eq!(a, same);
    assert_ne!(a, other_flag);
    assert_ne!(a, other_delimiter);
    assert_ne!(a, other_depth);
    assert_ne!(a, shorter);
    assert_ne!(
        Token::literal(LiteralKind::Str, "1"),
        Token::literal(LiteralKind::Integer, "1")
    );
    assert_ne!(Token::identifier("1"), Token::literal(LiteralKind::Integer, "1"));
}

#[test]
fn clone_copies_the_whole_tree() {
    let original = tree(vec![
        TokenItem::Token(Token::literal(LiteralKind::Char, "c")),
        TokenItem::group(
            Delimiter::Parenthesis,
            tree(vec![TokenItem::group(Delimiter::Invisible, TokenTree::new())]),
        ),
    ]);
    assert_eq!(original.clone(), original);
}

#[test]
fn delimiters_know_their_characters() {
    assert_eq!(Delimiter::Parenthesis.open_char(), Some('('));
    assert_eq!(Delimiter::Parenthesis.close_char(), Some(')'));
    assert_eq!(Delimiter::Bracket.open_char(), Some('['));
    assert_eq!(Delimiter::Bracket.close_char(), Some(']'));
    assert_eq!(Delimiter::Brace.open_char(), Some('{'));
    assert_eq!(Delimiter::Brace.close_char(), Some('}'));
    assert_eq!(Delimiter::Invisible.open_char(), None);
    assert_eq!(Delimiter::Invisible.close_char(), None);
    assert_eq!(LiteralKind::Integer.quote_char(), None);
    assert_eq!(LiteralKind::Str.quote_char(), Some('"'));
    assert_eq!(LiteralKind::Char.quote_char(), Some('\''));
}
