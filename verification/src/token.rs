//! The token model: lexical tokens, delimited groups and token trees.

use vstd::prelude::*;
use crate::chars::{
    char_in_run, char_is_ident_start, char_is_punct, in_run, is_digit, is_ident_continue,
    is_ident_start, is_punct,
};
use crate::text::chars_of;

verus! {

/// The bracket kind that encloses a group.
#[derive(Clone, Copy, Debug, PartialEq, Eq, Structural)]
pub enum Delimiter {
    /// `(` ... `)`
    Parenthesis,
    /// `[` ... `]`
    Bracket,
    /// `{` ... `}`
    Brace,
    /// No delimiter characters: the body stands in place of the group.
    Invisible,
}

/// The kind of a literal token.
#[derive(Clone, Copy, Debug, PartialEq, Eq, Structural)]
pub enum LiteralKind {
    /// A run of decimal digits.
    Integer,
    /// A double-quoted string; the token keeps the text between the quotes.
    Str,
    /// A single-quoted character; the token keeps the text between the quotes.
    Char,
}

/// A single lexical token.
#[derive(Debug, Eq)]
pub enum Token {
    /// An identifier or keyword, kept verbatim.
    Identifier(String),
    /// A literal of the given kind with its raw source text.
    Literal(LiteralKind, String),
    /// A punctuation character; the flag is set when the next token followed
    /// it without whitespace.
    Punctuation(char, bool),
}

/// One element of a token tree: a token or a nested group.
#[derive(Debug, Eq)]
pub enum TokenItem {
    Token(Token),
    Group(Group),
}

/// A delimited, possibly empty, nested token tree.
#[derive(Debug, Eq)]
pub struct Group {
    pub delimiter: Delimiter,
    pub body: TokenTree,
}

/// An ordered sequence of tokens and groups, as captured at an invocation.
#[derive(Debug, Eq)]
pub struct TokenTree {
    pub items: Vec<TokenItem>,
}

/// Mathematical model of a [`Token`].
pub ghost enum TokenModel {
    Identifier(Seq<char>),
    Literal(LiteralKind, Seq<char>),
    Punctuation(char, bool),
}

/// Mathematical model of a [`TokenItem`]; a tree is a `Seq<ItemModel>`.
pub ghost enum ItemModel {
    Token(TokenModel),
    Group(Delimiter, Seq<ItemModel>),
}

impl Delimiter {
    /// The character that opens a group of this kind, if it has one.
    pub open spec fn opening(self) -> Option<char> {
        match self {
            Delimiter::Parenthesis => Some('('),
            Delimiter::Bracket => Some('['),
            Delimiter::Brace => Some('{'),
            Delimiter::Invisible => None,
        }
    }

    /// The character that closes a group of this kind, if it has one.
    pub open spec fn closing(self) -> Option<char> {
        match self {
            Delimiter::Parenthesis => Some(')'),
            Delimiter::Bracket => Some(']'),
            Delimiter::Brace => Some('}'),
            Delimiter::Invisible => None,
        }
    }

    /// Exec twin of [`Delimiter::opening`].
    pub fn open_char(self) -> (c: Option<char>)
        ensures
            c == self.opening(),
    {
        match self {
            Delimiter::Parenthesis => Some('('),
            Delimiter::Bracket => Some('['),
            Delimiter::Brace => Some('{'),
            Delimiter::Invisible => None,
        }
    }

    /// Exec twin of [`Delimiter::closing`].
    pub fn close_char(self) -> (c: Option<char>)
        ensures
            c == self.closing(),
    {
        match self {
            Delimiter::Parenthesis => Some(')'),
            Delimiter::Bracket => Some(']'),
            Delimiter::Brace => Some('}'),
            Delimiter::Invisible => None,
        }
    }
}

/// The delimiter kind whose opening character is `c`, if any.
pub open spec fn opened_by(c: char) -> Option<Delimiter> {
    if c == '(' {
        Some(Delimiter::Parenthesis)
    } else if c == '[' {
        Some(Delimiter::Bracket)
    } else if c == '{' {
        Some(Delimiter::Brace)
    } else {
        None
    }
}

/// The delimiter kind whose closing character is `c`, if any.
pub open spec fn closed_by(c: char) -> Option<Delimiter> {
    if c == ')' {
        Some(Delimiter::Parenthesis)
    } else if c == ']' {
        Some(Delimiter::Bracket)
    } else if c == '}' {
        Some(Delimiter::Brace)
    } else {
        None
    }
}

/// The literal kind whose quote character is `c`, if any.
pub open spec fn quoted_by(c: char) -> Option<LiteralKind> {
    if c == '"' {
        Some(LiteralKind::Str)
    } else if c == '\'' {
        Some(LiteralKind::Char)
    } else {
        None
    }
}

/// Exec twin of [`opened_by`].
pub fn delimiter_opened_by(c: char) -> (d: Option<Delimiter>)
    ensures
        d == opened_by(c),
{
    if c == '(' {
        Some(Delimiter::Parenthesis)
    } else if c == '[' {
        Some(Delimiter::Bracket)
    } else if c == '{' {
        Some(Delimiter::Brace)
    } else {
        None
    }
}

/// Exec twin of [`closed_by`].
pub fn delimiter_closed_by(c: char) -> (d: Option<Delimiter>)
    ensures
        d == closed_by(c),
{
    if c == ')' {
        Some(Delimiter::Parenthesis)
    } else if c == ']' {
        Some(Delimiter::Bracket)
    } else if c == '}' {
        Some(Delimiter::Brace)
    } else {
        None
    }
}

/// Exec twin of [`quoted_by`].
pub fn literal_quoted_by(c: char) -> (kind: Option<LiteralKind>)
    ensures
        kind == quoted_by(c),
{
    if c == '"' {
        Some(LiteralKind::Str)
    } else if c == '\'' {
        Some(LiteralKind::Char)
    } else {
        None
    }
}

impl LiteralKind {
    /// The quote character that encloses a literal of this kind, if any.
    pub open spec fn quote(self) -> Option<char> {
        match self {
            LiteralKind::Integer => None,
            LiteralKind::Str => Some('"'),
            LiteralKind::Char => Some('\''),
        }
    }

    /// Exec twin of [`LiteralKind::quote`].
    pub fn quote_char(self) -> (c: Option<char>)
        ensures
            c == self.quote(),
    {
        match self {
            LiteralKind::Integer => None,
            LiteralKind::Str => Some('"'),
            LiteralKind::Char => Some('\''),
        }
    }
}

impl View for Token {
    type V = TokenModel;

    open spec fn view(&self) -> TokenModel {
        match self {
            Token::Identifier(text) => TokenModel::Identifier(text@),
            Token::Literal(kind, text) => TokenModel::Literal(*kind, text@),
            Token::Punctuation(symbol, joint) => TokenModel::Punctuation(*symbol, *joint),
        }
    }
}

impl View for TokenItem {
    type V = ItemModel;

    open spec fn view(&self) -> ItemModel
        decreases self,
    {
        match self {
            TokenItem::Token(token) => ItemModel::Token(token@),
            TokenItem::Group(group) => ItemModel::Group(group.delimiter, group.body.view()),
        }
    }
}

impl View for TokenTree {
    type V = Seq<ItemModel>;

    open spec fn view(&self) -> Seq<ItemModel>
        decreases self,
    {
        Seq::new(
            self.items@.len(),
            |i: int|
                if 0 <= i < self.items@.len() {
                    self.items@[i].view()
                } else {
                    arbitrary()
                },
        )
    }
}

/// Text of an identifier: a letter or an underscore, then letters, digits
/// and underscores.
pub open spec fn is_identifier_text(s: Seq<char>) -> bool {
    &&& s.len() > 0
    &&& is_ident_start(s[0])
    &&& forall|i: int| 0 <= i < s.len() ==> is_ident_continue(#[trigger] s[i])
}

/// Text of an integer literal: one or more decimal digits.
pub open spec fn is_integer_text(s: Seq<char>) -> bool {
    &&& s.len() > 0
    &&& forall|i: int| 0 <= i < s.len() ==> is_digit(#[trigger] s[i])
}

/// Text that may stand between two `quote` characters: a backslash takes the
/// character after it along, and no other `quote` occurs.
pub open spec fn is_quoted_body(s: Seq<char>, quote: char) -> bool
    decreases s.len(),
{
    if s.len() == 0 {
        true
    } else if s[0] == '\\' {
        s.len() >= 2 && is_quoted_body(s.skip(2), quote)
    } else if s[0] == quote {
        false
    } else {
        is_quoted_body(s.skip(1), quote)
    }
}

/// A token whose text is what the grammar allows for its kind.
pub open spec fn token_well_formed(token: TokenModel) -> bool {
    match token {
        TokenModel::Identifier(text) => is_identifier_text(text),
        TokenModel::Literal(kind, text) => match kind.quote() {
            Some(q) => is_quoted_body(text, q),
            None => is_integer_text(text),
        },
        TokenModel::Punctuation(symbol, _) => is_punct(symbol),
    }
}

/// An item all of whose tokens are well formed.
pub open spec fn item_well_formed(item: ItemModel) -> bool
    decreases item,
{
    match item {
        ItemModel::Token(token) => token_well_formed(token),
        ItemModel::Group(_, body) => tree_well_formed(body),
    }
}

/// A tree all of whose tokens, at any depth, are well formed.
pub open spec fn tree_well_formed(items: Seq<ItemModel>) -> bool
    decreases items,
{
    forall|i: int| 0 <= i < items.len() ==> item_well_formed(#[trigger] items[i])
}

/// Whether every character is of the run's class.
fn all_in_run(chars: &Vec<char>, digits_only: bool) -> (b: bool)
    ensures
        b == forall|i: int| 0 <= i < chars@.len() ==> in_run(#[trigger] chars@[i], digits_only),
{
    let mut i: usize = 0;
    while i < chars.len()
        invariant
            i <= chars.len(),
            forall|k: int| 0 <= k < i ==> in_run(#[trigger] chars@[k], digits_only),
        decreases chars.len() - i,
    {
        if !char_in_run(chars[i], digits_only) {
            return false;
        }
        i += 1;
    }
    true
}

/// Exec twin of [`is_quoted_body`].
fn check_quoted_body(chars: &Vec<char>, quote: char) -> (b: bool)
    ensures
        b == is_quoted_body(chars@, quote),
{
    let mut i: usize = 0;
    assert(chars@.skip(0) =~= chars@);
    while i < chars.len()
        invariant
            i <= chars.len(),
            is_quoted_body(chars@, quote) == is_quoted_body(chars@.skip(i as int), quote),
        decreases chars.len() - i,
    {
        let c = chars[i];
        if c == '\\' {
            if chars.len() - i < 2 {
                return false;
            }
            assert(chars@.skip(i as int).skip(2) =~= chars@.skip(i + 2));
            i += 2;
        } else if c == quote {
            return false;
        } else {
            assert(chars@.skip(i as int).skip(1) =~= chars@.skip(i + 1));
            i += 1;
        }
    }
    true
}

impl Clone for Token {
    fn clone(&self) -> (copy: Token)
        ensures
            copy@ == self@,
    {
        match self {
            Token::Identifier(text) => Token::Identifier(text.clone()),
            Token::Literal(kind, text) => Token::Literal(*kind, text.clone()),
            Token::Punctuation(symbol, joint) => Token::Punctuation(*symbol, *joint),
        }
    }
}

impl PartialEq for Token {
    fn eq(&self, other: &Token) -> (same: bool) {
        match (self, other) {
            (Token::Identifier(a), Token::Identifier(b)) => *a == *b,
            (Token::Literal(kind, a), Token::Literal(other_kind, b)) => *kind == *other_kind && *a
                == *b,
            (Token::Punctuation(symbol, joint), Token::Punctuation(other_symbol, other_joint)) => {
                *symbol == *other_symbol && *joint == *other_joint
            },
            _ => false,
        }
    }
}

impl vstd::std_specs::cmp::PartialEqSpecImpl for Token {
    open spec fn obeys_eq_spec() -> bool {
        true
    }

    open spec fn eq_spec(&self, other: &Token) -> bool {
        self@ == other@
    }
}

impl PartialEq for TokenItem {
    fn eq(&self, other: &TokenItem) -> (same: bool)
        decreases self,
    {
        match (self, other) {
            (TokenItem::Token(a), TokenItem::Token(b)) => *a == *b,
            (TokenItem::Group(a), TokenItem::Group(b)) => a.delimiter == b.delimiter && a.body
                == b.body,
            _ => false,
        }
    }
}

impl vstd::std_specs::cmp::PartialEqSpecImpl for TokenItem {
    open spec fn obeys_eq_spec() -> bool {
        true
    }

    open spec fn eq_spec(&self, other: &TokenItem) -> bool {
        self@ == other@
    }
}

impl PartialEq for Group {
    fn eq(&self, other: &Group) -> (same: bool)
        decreases self,
    {
        self.delimiter == other.delimiter && self.body == other.body
    }
}

impl vstd::std_specs::cmp::PartialEqSpecImpl for Group {
    open spec fn obeys_eq_spec() -> bool {
        true
    }

    open spec fn eq_spec(&self, other: &Group) -> bool {
        self.delimiter == other.delimiter && self.body@ == other.body@
    }
}

impl PartialEq for TokenTree {
    fn eq(&self, other: &TokenTree) -> (same: bool)
        decreases self,
    {
        if self.items.len() != other.items.len() {
            assert(self@.len() != other@.len());
            return false;
        }
        let mut i: usize = 0;
        while i < self.items.len()
            invariant
                i <= self.items.len(),
                self.items.len() == other.items.len(),
                forall|k: int| 0 <= k < i ==> #[trigger] self@[k] == other@[k],
            decreases self.items.len() - i,
        {
            if !(self.items[i] == other.items[i]) {
                assert(self@[i as int] != other@[i as int]);
                return false;
            }
            i += 1;
        }
        assert(self@ =~= other@);
        true
    }
}

impl vstd::std_specs::cmp::PartialEqSpecImpl for TokenTree {
    open spec fn obeys_eq_spec() -> bool {
        true
    }

    open spec fn eq_spec(&self, other: &TokenTree) -> bool {
        self@ == other@
    }
}

impl Clone for TokenItem {
    fn clone(&self) -> (copy: TokenItem)
        ensures
            copy@ == self@,
        decreases self,
    {
        match self {
            TokenItem::Token(token) => TokenItem::Token(token.clone()),
            TokenItem::Group(group) => TokenItem::Group(group.clone()),
        }
    }
}

impl Clone for Group {
    fn clone(&self) -> (copy: Group)
        ensures
            copy.delimiter == self.delimiter,
            copy.body@ == self.body@,
        decreases self,
    {
        Group { delimiter: self.delimiter, body: self.body.clone() }
    }
}

impl Clone for TokenTree {
    fn clone(&self) -> (copy: TokenTree)
        ensures
            copy@ == self@,
        decreases self,
    {
        let mut copy = TokenTree::new();
        let mut i: usize = 0;
        while i < self.items.len()
            invariant
                i <= self.items.len(),
                copy@ == self@.take(i as int),
            decreases self.items.len() - i,
        {
            copy.push(self.items[i].clone());
            assert(self@.take(i as int).push(self@[i as int]) =~= self@.take(i + 1));
            i += 1;
        }
        assert(self@.take(i as int) =~= self@);
        copy
    }
}

impl Token {
    /// The identifier or keyword with the given text.
    pub fn identifier(text: &str) -> (token: Token)
        ensures
            token@ == TokenModel::Identifier(text@),
    {
        Token::Identifier(text.to_owned())
    }

    /// The literal of the given kind with the given raw text: the digits of
    /// an integer, or what stands between the quotes.
    pub fn literal(kind: LiteralKind, text: &str) -> (token: Token)
        ensures
            token@ == TokenModel::Literal(kind, text@),
    {
        Token::Literal(kind, text.to_owned())
    }

    /// The punctuation token for `symbol`. `joint` says that the next token
    /// follows without whitespace.
    pub fn punctuation(symbol: char, joint: bool) -> (token: Token)
        ensures
            token@ == TokenModel::Punctuation(symbol, joint),
    {
        Token::Punctuation(symbol, joint)
    }

    /// Whether the token's text is what the grammar allows for its kind.
    pub fn is_well_formed(&self) -> (b: bool)
        ensures
            b == token_well_formed(self@),
    {
        match self {
            Token::Identifier(text) => {
                let chars = chars_of(text.as_str());
                chars.len() > 0 && char_is_ident_start(chars[0]) && all_in_run(&chars, false)
            },
            Token::Literal(kind, text) => {
                let chars = chars_of(text.as_str());
                match kind.quote_char() {
                    Some(q) => check_quoted_body(&chars, q),
                    None => chars.len() > 0 && all_in_run(&chars, true),
                }
            },
            Token::Punctuation(symbol, _) => char_is_punct(*symbol),
        }
    }
}

impl TokenItem {
    /// The group item with the given delimiter around `body`.
    pub fn group(delimiter: Delimiter, body: TokenTree) -> (item: TokenItem)
        ensures
            item@ == ItemModel::Group(delimiter, body@),
    {
        TokenItem::Group(Group { delimiter, body })
    }

    /// Whether every token of the item, at any depth, is well formed.
    pub fn is_well_formed(&self) -> (b: bool)
        ensures
            b == item_well_formed(self@),
        decreases self,
    {
        match self {
            TokenItem::Token(token) => token.is_well_formed(),
            TokenItem::Group(group) => group.body.is_well_formed(),
        }
    }
}

impl TokenTree {
    /// The tree without any token.
    pub fn new() -> (tree: TokenTree)
        ensures
            tree@ == Seq::<ItemModel>::empty(),
    {
        TokenTree { items: Vec::new() }
    }

    /// The number of items at the top of the tree.
    pub fn len(&self) -> (n: usize)
        ensures
            n == self@.len(),
    {
        self.items.len()
    }

    /// Appends one item to the tree.
    pub fn push(&mut self, item: TokenItem)
        ensures
            final(self)@ == old(self)@.push(item@),
    {
        self.items.push(item);
        assert(self@ =~= old(self)@.push(item@));
    }

    /// Whether every token of the tree, at any depth, is well formed.
    pub fn is_well_formed(&self) -> (b: bool)
        ensures
            b == tree_well_formed(self@),
        decreases self,
    {
        let mut i: usize = 0;
        while i < self.items.len()
            invariant
                i <= self.items.len(),
                forall|k: int| 0 <= k < i ==> item_well_formed(#[trigger] self@[k]),
            decreases self.items.len() - i,
        {
            if !self.items[i].is_well_formed() {
                assert(!item_well_formed(self@[i as int]));
                return false;
            }
            i += 1;
        }
        true
    }
}

} // verus!
