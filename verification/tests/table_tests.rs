use macro_stringify::table::{
    BuiltinKind, MacroDefinition, MacroDefinitionTable, MacroRule, STRINGIFY,
};
use macro_stringify::token::{Token, TokenItem, TokenTree};

fn rule(matcher: &str, transcriber: &str) -> MacroRule {
    MacroRule {
        matcher: TokenTree { items: vec![TokenItem::Token(Token::identifier(matcher))] },
        transcriber: TokenTree { items: vec![TokenItem::Token(Token::identifier(transcriber))] },
    }
}

fn user(matcher: &str, transcriber: &str) -> MacroDefinition {
    MacroDefinition::UserDefined(vec![rule(matcher, transcriber)])
}

#[test]
fn new_table_knows_no_name() {
    let table = MacroDefinitionTable::new(Vec::new());
    assert_eq!(table.lookup("stringify"), None);
    assert_eq!(table.lookup(""), None);
    assert!(!table.is_reserved("stringify"));
}

#[test]
fn builtin_table_holds_stringify() {
    let table = MacroDefinitionTable::with_builtins();
    assert_eq!(STRINGIFY, "stringify");
    assert_eq!(table.lookup("stringify"), Some(&MacroDefinition::Builtin(BuiltinKind::Stringify)));
    assert!(table.is_reserved("stringify"));
    assert!(!table.is_reserved("concat"));
    assert_eq!(table.lookup("concat"), None);
}

#[test]
fn insert_then_lookup_gives_the_definition() {
    let mut table = MacroDefinitionTable::with_builtins();
    table.insert("twice".to_string(), user("a", "b"));
    assert_eq!(table.lookup("twice"), Some(&user("a", "b")));
    assert_eq!(table.lookup("stringify"), Some(&MacroDefinition::Builtin(BuiltinKind::Stringify)));
    assert_eq!(table.lookup("Twice"), None);
}

#[test]
fn later_declaration_replaces_an_earlier_one() {
    let mut table = MacroDefinitionTable::with_builtins();
    table.insert("m".to_string(), user("a", "b"));
    table.insert("other".to_string(), user("x", "y"));
    table.insert("m".to_string(), user("c", "d"));
    assert_eq!(table.lookup("m"), Some(&user("c", "d")));
    assert_eq!(table.lookup("other"), Some(&user("x", "y")));
}

#[test]
fn reserved_builtin_is_not_shadowed() {
    let mut table = MacroDefinitionTable::with_builtins();
    table.insert("stringify".to_string(), MacroDefinition::UserDefined(Vec::new()));
    table.insert("stringify".to_string(), user("t", "u"));
    assert_eq!(table.lookup("stringify"), Some(&MacroDefinition::Builtin(BuiltinKind::Stringify)));
}

#[test]
fn builtin_under_a_name_that_is_not_reserved_can_be_shadowed() {
    let mut table = MacroDefinitionTable::new(Vec::new());
    table.insert("stringify".to_string(), MacroDefinition::Builtin(BuiltinKind::Stringify));
    table.insert("stringify".to_string(), user("t", "u"));
    assert_eq!(table.lookup("stringify"), Some(&user("t", "u")));
}

#[test]
fn reserved_name_protects_only_a_builtin() {
    let mut table = MacroDefinitionTable::new(vec!["m".to_string()]);
    assert!(table.is_reserved("m"));
    table.insert("m".to_string(), user("a", "b"));
    assert_eq!(table.lookup("m"), Some(&user("a", "b")));
    table.insert("m".to_string(), MacroDefinition::Builtin(BuiltinKind::Stringify));
    assert_eq!(table.lookup("m"), Some(&MacroDefinition::Builtin(BuiltinKind::Stringify)));
    table.insert("m".to_string(), user("c", "d"));
    assert_eq!(table.lookup("m"), Some(&MacroDefinition::Builtin(BuiltinKind::Stringify)));
}

#[test]
fn tables_are_independent() {
    let mut first = MacroDefinitionTable::with_builtins();
    let second = MacroDefinitionTable::with_builtins();
    first.insert("m".to_string(), user("a", "b"));
    assert_eq!(first.lookup("m"), Some(&user("a", "b")));
    assert_eq!(second.lookup("m"), None);
}
