//! The macro resolver: which definition an invocation uses, and what the
//! invocation expands to.

use vstd::prelude::*;
use crate::render::{render, render_spec};
use crate::table::{
    builtin_table, insert_spec, is_protected, rule_models, BuiltinKind, DefinitionModel,
    MacroDefinition, MacroDefinitionTable, MacroRule, RuleModel, TableModel, STRINGIFY,
};
use crate::text::chars_of;
use crate::token::{
    is_quoted_body, token_well_formed, tree_well_formed, ItemModel, LiteralKind, Token,
    TokenModel, TokenTree,
};

verus! {

/// Where in the source an invocation stands.
#[derive(Clone, Copy, Debug, PartialEq, Eq, Structural)]
pub struct CallSite {
    pub line: u32,
    pub column: u32,
}

/// A macro invocation as the parser hands it over: the name before the `!`,
/// the captured tokens, and the place. Which delimiter enclosed the tokens
/// plays no part.
#[derive(Debug, PartialEq, Eq)]
pub struct Invocation {
    pub name: String,
    pub tokens: TokenTree,
    pub site: CallSite,
}

/// Mathematical model of an [`Invocation`].
pub ghost struct InvocationModel {
    pub name: Seq<char>,
    pub tokens: Seq<ItemModel>,
    pub site: CallSite,
}

impl View for Invocation {
    type V = InvocationModel;

    open spec fn view(&self) -> InvocationModel {
        InvocationModel { name: self.name@, tokens: self.tokens@, site: self.site }
    }
}

/// Why an invocation could not be expanded.
#[derive(Clone, Copy, Debug, PartialEq, Eq, Structural)]
pub enum MacroError {
    /// No definition is known under the invocation's name.
    UnknownMacro { site: CallSite },
    /// The captured tokens hold a token that no tokenizer gives: a fault of
    /// whatever built the capture, not of the source text.
    MalformedCapture { site: CallSite },
}

/// The state of resolving one invocation.
#[derive(Clone, Copy, Debug, PartialEq, Eq, Structural)]
pub enum Resolution {
    /// The name has not been looked up yet.
    Unresolved,
    /// The invocation uses the given builtin.
    ResolvedBuiltin(BuiltinKind),
    /// The invocation uses the rules declared under its name.
    ResolvedUser,
    /// The invocation cannot be resolved.
    Error(MacroError),
}

/// What an invocation is replaced by.
#[derive(Debug, PartialEq, Eq)]
pub enum Expansion<'a> {
    /// A single literal token that takes the invocation's place.
    Literal(Token),
    /// The captured tokens, to be rewritten by the given rules.
    Substitution { rules: &'a Vec<MacroRule>, tokens: &'a TokenTree },
}

/// Mathematical model of an [`Expansion`].
pub ghost enum ExpansionModel {
    Literal(TokenModel),
    Substitution { rules: Seq<RuleModel>, tokens: Seq<ItemModel> },
}

impl<'a> View for Expansion<'a> {
    type V = ExpansionModel;

    open spec fn view(&self) -> ExpansionModel {
        match self {
            Expansion::Literal(token) => ExpansionModel::Literal(token@),
            Expansion::Substitution { rules, tokens } => ExpansionModel::Substitution {
                rules: rule_models(rules@),
                tokens: tokens@,
            },
        }
    }
}

/// The state that looking `name` up in `table` leads to: an error where the
/// name is unknown, else the kind of definition stored under it.
pub open spec fn resolve_spec(table: TableModel, name: Seq<char>, site: CallSite) -> Resolution {
    if !table.definitions.dom().contains(name) {
        Resolution::Error(MacroError::UnknownMacro { site })
    } else {
        match table.definitions[name] {
            DefinitionModel::Builtin(kind) => Resolution::ResolvedBuiltin(kind),
            DefinitionModel::UserDefined(_) => Resolution::ResolvedUser,
        }
    }
}

/// One step of the resolver: an unresolved invocation is looked up, and any
/// other state stays as it is.
pub open spec fn advance_spec(
    state: Resolution,
    table: TableModel,
    name: Seq<char>,
    site: CallSite,
) -> Resolution {
    if state is Unresolved {
        resolve_spec(table, name, site)
    } else {
        state
    }
}

/// The characters that stand for `c` inside a string literal.
pub open spec fn escaped_char(c: char) -> Seq<char> {
    if c == '"' || c == '\\' {
        seq!['\\', c]
    } else {
        seq![c]
    }
}

/// The text as it stands between the quotes of a string literal: a backslash
/// before every double quote and every backslash.
pub open spec fn escaped(text: Seq<char>) -> Seq<char>
    decreases text.len(),
{
    if text.len() == 0 {
        Seq::empty()
    } else {
        escaped_char(text[0]) + escaped(text.skip(1))
    }
}

/// The text that the body of a string literal stands for when its only
/// escapes are those of [`escaped`]: each backslash is dropped and the
/// character after it kept. Escapes with a meaning of their own are not
/// interpreted.
pub open spec fn unescaped(body: Seq<char>) -> Seq<char>
    decreases body.len(),
{
    if body.len() == 0 {
        Seq::empty()
    } else if body[0] == '\\' && body.len() >= 2 {
        seq![body[1]] + unescaped(body.skip(2))
    } else {
        seq![body[0]] + unescaped(body.skip(1))
    }
}

/// The string literal token whose value is `text`.
pub open spec fn string_literal_spec(text: Seq<char>) -> TokenModel {
    TokenModel::Literal(LiteralKind::Str, escaped(text))
}

/// What an invocation expands to.
///
/// An unknown name is an error. Otherwise the capture must be well formed.
/// The stringifying builtin then gives the string literal that holds the
/// rendered capture, and a user-defined macro hands the capture to its rules.
pub open spec fn expand_spec(
    table: TableModel,
    invocation: InvocationModel,
) -> Result<ExpansionModel, MacroError> {
    if !table.definitions.dom().contains(invocation.name) {
        Err(MacroError::UnknownMacro { site: invocation.site })
    } else if !tree_well_formed(invocation.tokens) {
        Err(MacroError::MalformedCapture { site: invocation.site })
    } else {
        match table.definitions[invocation.name] {
            DefinitionModel::Builtin(BuiltinKind::Stringify) => Ok(
                ExpansionModel::Literal(string_literal_spec(render_spec(invocation.tokens))),
            ),
            DefinitionModel::UserDefined(rules) => Ok(
                ExpansionModel::Substitution { rules, tokens: invocation.tokens },
            ),
        }
    }
}

/// Expansion follows resolution: it fails with `UnknownMacro` exactly where
/// the resolver ends in its error state, gives a literal only for an
/// invocation resolved to the builtin, and hands over rules only for one
/// resolved to a user-defined macro.
pub proof fn lemma_expand_follows_resolve(table: TableModel, invocation: InvocationModel)
    ensures
        match resolve_spec(table, invocation.name, invocation.site) {
            Resolution::Error(e) => expand_spec(table, invocation) == Err::<
                ExpansionModel,
                MacroError,
            >(e),
            Resolution::ResolvedBuiltin(_) => expand_spec(table, invocation) matches Ok(given)
                ==> given is Literal,
            Resolution::ResolvedUser => expand_spec(table, invocation) matches Ok(given)
                ==> given is Substitution,
            Resolution::Unresolved => false,
        },
{
}

/// The table after the given declarations, made in order.
pub open spec fn insert_all(
    table: TableModel,
    declarations: Seq<(Seq<char>, DefinitionModel)>,
) -> TableModel
    decreases declarations.len(),
{
    if declarations.len() == 0 {
        table
    } else {
        insert_spec(
            insert_all(table, declarations.drop_last()),
            declarations.last().0,
            declarations.last().1,
        )
    }
}

/// A reserved builtin cannot be shadowed: whatever is declared later, under
/// its name or any other, an invocation of the name resolves to the builtin.
pub proof fn lemma_reserved_builtin_not_shadowed(
    table: TableModel,
    name: Seq<char>,
    kind: BuiltinKind,
    declarations: Seq<(Seq<char>, DefinitionModel)>,
    site: CallSite,
)
    requires
        table.reserved.contains(name),
        table.definitions.dom().contains(name),
        table.definitions[name] == DefinitionModel::Builtin(kind),
    ensures
        insert_all(table, declarations).reserved == table.reserved,
        resolve_spec(insert_all(table, declarations), name, site) == Resolution::ResolvedBuiltin(
            kind,
        ),
    decreases declarations.len(),
{
    if declarations.len() > 0 {
        lemma_reserved_builtin_not_shadowed(table, name, kind, declarations.drop_last(), site);
    }
}

/// In the table that a compilation unit starts with, no later declaration
/// shadows `stringify`: an invocation of it resolves to the builtin.
pub proof fn lemma_stringify_not_shadowed(
    declarations: Seq<(Seq<char>, DefinitionModel)>,
    site: CallSite,
)
    ensures
        resolve_spec(insert_all(builtin_table(), declarations), STRINGIFY@, site)
            == Resolution::ResolvedBuiltin(BuiltinKind::Stringify),
{
    lemma_reserved_builtin_not_shadowed(
        builtin_table(),
        STRINGIFY@,
        BuiltinKind::Stringify,
        declarations,
        site,
    );
}

/// Where shadowing is permitted the latest declaration wins, and a
/// declaration leaves every other name as it was.
pub proof fn lemma_latest_declaration_wins(
    table: TableModel,
    name: Seq<char>,
    definition: DefinitionModel,
    other: Seq<char>,
    site: CallSite,
)
    requires
        !is_protected(table, name),
        other != name,
    ensures
        resolve_spec(insert_spec(table, name, definition), name, site) == match definition {
            DefinitionModel::Builtin(kind) => Resolution::ResolvedBuiltin(kind),
            DefinitionModel::UserDefined(_) => Resolution::ResolvedUser,
        },
        resolve_spec(insert_spec(table, name, definition), other, site) == resolve_spec(
            table,
            other,
            site,
        ),
{
}

/// Escaped text can stand between double quotes.
pub proof fn lemma_escaped_is_quoted_body(text: Seq<char>)
    ensures
        is_quoted_body(escaped(text), '"'),
        token_well_formed(string_literal_spec(text)),
    decreases text.len(),
{
    if text.len() > 0 {
        let rest = escaped(text.skip(1));
        lemma_escaped_is_quoted_body(text.skip(1));
        if text[0] == '"' || text[0] == '\\' {
            assert((escaped_char(text[0]) + rest).skip(2) =~= rest);
        } else {
            assert((escaped_char(text[0]) + rest).skip(1) =~= rest);
        }
    }
}

/// Escaping loses nothing: the escaped text stands for the text.
pub proof fn lemma_unescaped_escaped(text: Seq<char>)
    ensures
        unescaped(escaped(text)) == text,
    decreases text.len(),
{
    if text.len() > 0 {
        let rest = escaped(text.skip(1));
        let all = escaped_char(text[0]) + rest;
        lemma_unescaped_escaped(text.skip(1));
        if text[0] == '"' || text[0] == '\\' {
            assert(all[0] == '\\' && all[1] == text[0]);
            assert(all.skip(2) =~= rest);
        } else {
            assert(all[0] == text[0]);
            assert(all.skip(1) =~= rest);
        }
        assert(seq![text[0]] + text.skip(1) =~= text);
    }
}

/// The text that a string literal token stands for, taking `\\` before a
/// character as that character; `None` for any other token.
pub fn string_value(token: &Token) -> (value: Option<String>)
    ensures
        match token@ {
            TokenModel::Literal(LiteralKind::Str, body) => value matches Some(text) && text@
                == unescaped(body),
            _ => value is None,
        },
{
    match token {
        Token::Literal(LiteralKind::Str, body) => {
            let chars = chars_of(body.as_str());
            let mut text = String::new();
            let mut i: usize = 0;
            assert(chars@.skip(0) =~= chars@);
            while i < chars.len()
                invariant
                    i <= chars.len(),
                    unescaped(chars@) == text@ + unescaped(chars@.skip(i as int)),
                decreases chars.len() - i,
            {
                let ghost before = text@;
                if chars[i] == '\\' && chars.len() - i >= 2 {
                    let ghost rest = unescaped(chars@.skip(i + 2));
                    assert(chars@.skip(i as int).skip(2) =~= chars@.skip(i + 2));
                    text.push(chars[i + 1]);
                    assert(text@ + rest =~= before + (seq![chars@[i + 1]] + rest));
                    i += 2;
                } else {
                    let ghost rest = unescaped(chars@.skip(i + 1));
                    assert(chars@.skip(i as int).skip(1) =~= chars@.skip(i + 1));
                    text.push(chars[i]);
                    assert(text@ + rest =~= before + (seq![chars@[i as int]] + rest));
                    i += 1;
                }
            }
            assert(text@ + Seq::<char>::empty() =~= text@);
            Some(text)
        },
        _ => None,
    }
}

/// The string literal token whose value is `text`.
pub fn string_literal(text: &str) -> (token: Token)
    ensures
        token@ == string_literal_spec(text@),
        token_well_formed(token@),
{
    let chars = chars_of(text);
    let mut body = String::new();
    let mut i: usize = 0;
    assert(chars@.skip(0) =~= chars@);
    while i < chars.len()
        invariant
            i <= chars.len(),
            escaped(chars@) == body@ + escaped(chars@.skip(i as int)),
        decreases chars.len() - i,
    {
        let c = chars[i];
        let ghost before = body@;
        let ghost rest = escaped(chars@.skip(i + 1));
        assert(chars@.skip(i as int).skip(1) =~= chars@.skip(i + 1));
        if c == '"' || c == '\\' {
            body.push('\\');
        }
        body.push(c);
        assert(body@ + rest =~= before + (escaped_char(c) + rest));
        i += 1;
    }
    proof {
        assert(body@ + Seq::<char>::empty() =~= body@);
        lemma_escaped_is_quoted_body(text@);
    }
    Token::Literal(LiteralKind::Str, body)
}

impl Resolution {
    /// One step of the resolver: an unresolved invocation is looked up in the
    /// table; a state that is already settled stays as it is.
    pub fn advance(self, table: &MacroDefinitionTable, invocation: &Invocation) -> (next:
        Resolution)
        ensures
            next == advance_spec(self, table@, invocation.name@, invocation.site),
            !(next is Unresolved),
    {
        match self {
            Resolution::Unresolved => resolve(table, invocation),
            _ => self,
        }
    }
}

/// Decides which definition an invocation uses.
///
/// The name is looked up in the table. An unknown name gives the error state
/// with the call site; a builtin gives `ResolvedBuiltin`, a user-defined
/// macro `ResolvedUser`. Since the table passes over declarations that would
/// shadow a reserved builtin, such a builtin is what its name resolves to.
pub fn resolve(table: &MacroDefinitionTable, invocation: &Invocation) -> (state: Resolution)
    ensures
        state == resolve_spec(table@, invocation.name@, invocation.site),
        !(state is Unresolved),
{
    match table.lookup(invocation.name.as_str()) {
        Some(MacroDefinition::Builtin(kind)) => Resolution::ResolvedBuiltin(*kind),
        Some(MacroDefinition::UserDefined(_)) => Resolution::ResolvedUser,
        None => Resolution::Error(MacroError::UnknownMacro { site: invocation.site }),
    }
}

/// Expands an invocation.
///
/// Fails with `UnknownMacro` where the name has no definition, and with
/// `MalformedCapture` where the name is known and the captured tokens are
/// not well formed. Otherwise the stringifying builtin gives the string
/// literal token whose value is the rendered capture, and a user-defined
/// macro gives its rules together with the capture, for the substitution
/// engine to rewrite.
pub fn expand<'a>(table: &'a MacroDefinitionTable, invocation: &'a Invocation) -> (result: Result<
    Expansion<'a>,
    MacroError,
>)
    ensures
        match expand_spec(table@, invocation@) {
            Ok(expansion) => result matches Ok(given) && given@ == expansion,
            Err(e) => result matches Err(f) && f == e,
        },
{
    match table.lookup(invocation.name.as_str()) {
        None => Err(MacroError::UnknownMacro { site: invocation.site }),
        Some(definition) => {
            if !invocation.tokens.is_well_formed() {
                return Err(MacroError::MalformedCapture { site: invocation.site });
            }
            match definition {
                MacroDefinition::Builtin(BuiltinKind::Stringify) => {
                    let text = render(&invocation.tokens);
                    Ok(Expansion::Literal(string_literal(text.as_str())))
                },
                MacroDefinition::UserDefined(rules) => Ok(
                    Expansion::Substitution { rules, tokens: &invocation.tokens },
                ),
            }
        },
    }
}

} // verus!
