use macro_stringify::output::print;
use macro_stringify::render::render;
use macro_stringify::token::{Delimiter, LiteralKind, Token, TokenItem, TokenTree};

fn ident(text: &str) -> TokenItem {
    TokenItem::Token(Token::identifier(text))
}

fn integer(text: &str) -> TokenItem {
    TokenItem::Token(Token::literal(LiteralKind::Integer, text))
}

fn punct(symbol: char, joint: bool) -> TokenItem {
    TokenItem::Token(Token::punctuation(symbol, joint))
}

fn tree(items: Vec<TokenItem>) -> TokenTree {
    TokenTree { items }
}

fn group(delimiter: Delimiter, items: Vec<TokenItem>) -> TokenItem {
    TokenItem::group(delimiter, tree(items))
}

#[test]
fn empty_tree_renders_as_empty_text() {
    assert_eq!(render(&TokenTree::new()), "");
}

#[test]
fn let_binding_renders_with_single_spaces() {
    let capture = tree(vec![ident("let"), ident("a"), punct('=', false), integer("2")]);
    assert_eq!(render(&capture), "let a = 2");
}

#[test]
fn empty_brace_group_renders_with_one_space_inside() {
    let capture = tree(vec![group(Delimiter::Brace, vec![])]);
    assert_eq!(render(&capture), "{ }");
}

#[test]
fn empty_parenthesis_and_bracket_groups_render_alike() {
    assert_eq!(render(&tree(vec![group(Delimiter::Parenthesis, vec![])])), "( )");
    assert_eq!(render(&tree(vec![group(Delimiter::Bracket, vec![])])), "[ ]");
}

#[test]
fn nested_group_keeps_order_and_braces() {
    let capture = tree(vec![group(
        Delimiter::Brace,
        vec![ident("x"), punct(';', false), ident("y")],
    )]);
    assert_eq!(render(&capture), "{ x ; y }");
}

#[test]
fn groups_nest_to_any_depth() {
    let capture = tree(vec![
        ident("f"),
        group(
            Delimiter::Parenthesis,
            vec![
                ident("a"),
                punct(',', false),
                group(Delimiter::Bracket, vec![group(Delimiter::Brace, vec![integer("1")])]),
            ],
        ),
    ]);
    assert_eq!(render(&capture), "f ( a , [ { 1 } ] )");
}

#[test]
fn joint_punctuation_renders_as_one_run() {
    let path = tree(vec![ident("a"), punct(':', true), punct(':', false), ident("b")]);
    assert_eq!(render(&path), "a :: b");
    let arrow = tree(vec![ident("f"), punct('-', true), punct('>', false), ident("T")]);
    assert_eq!(render(&arrow), "f -> T");
    let range = tree(vec![punct('.', true), punct('.', true), punct('=', false)]);
    assert_eq!(render(&range), "..=");
}

#[test]
fn punctuation_that_is_not_joint_is_spaced() {
    let capture = tree(vec![punct('-', false), punct('>', false)]);
    assert_eq!(render(&capture), "- >");
}

#[test]
fn joint_punctuation_binds_to_any_next_lexeme() {
    let negation = tree(vec![punct('-', true), ident("x")]);
    assert_eq!(render(&negation), "-x");
    let attribute = tree(vec![punct('#', true), group(Delimiter::Bracket, vec![ident("test")])]);
    assert_eq!(render(&attribute), "#[ test ]");
    let inside = tree(vec![group(Delimiter::Parenthesis, vec![ident("a"), punct('+', true)])]);
    assert_eq!(render(&inside), "( a +)");
}

#[test]
fn trailing_joint_flag_writes_nothing() {
    assert_eq!(render(&tree(vec![punct('+', true)])), "+");
    assert_eq!(render(&tree(vec![punct('+', false)])), "+");
}

#[test]
fn quoted_literals_get_their_quotes_back() {
    let text = tree(vec![TokenItem::Token(Token::literal(LiteralKind::Str, "go go go"))]);
    assert_eq!(render(&text), "\"go go go\"");
    let escaped = tree(vec![TokenItem::Token(Token::literal(LiteralKind::Str, "a\\\"b"))]);
    assert_eq!(render(&escaped), "\"a\\\"b\"");
    let character = tree(vec![TokenItem::Token(Token::literal(LiteralKind::Char, "x"))]);
    assert_eq!(render(&character), "'x'");
}

#[test]
fn integer_literal_renders_its_digits() {
    assert_eq!(render(&tree(vec![integer("123")])), "123");
    assert_eq!(render(&tree(vec![integer("007")])), "007");
}

#[test]
fn invisible_group_renders_as_its_body() {
    let capture = tree(vec![
        ident("a"),
        group(Delimiter::Invisible, vec![ident("b"), ident("c")]),
        ident("d"),
    ]);
    assert_eq!(render(&capture), "a b c d");
    let hollow = tree(vec![ident("a"), group(Delimiter::Invisible, vec![]), ident("b")]);
    assert_eq!(render(&hollow), "a b");
    let fused = tree(vec![
        group(Delimiter::Invisible, vec![punct('-', true)]),
        punct('>', false),
    ]);
    assert_eq!(render(&fused), "->");
}

#[test]
fn rendering_is_deterministic() {
    let capture = tree(vec![ident("let"), ident("a"), punct('=', false), integer("2")]);
    assert_eq!(render(&capture), render(&capture));
    assert_eq!(render(&capture), render(&capture.clone()));
}

#[test]
fn print_gives_the_text_and_a_line_feed() {
    assert_eq!(print("let a = 2"), "let a = 2\n");
    assert_eq!(print(""), "\n");
}
