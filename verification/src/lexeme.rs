//! The flat view of a token tree: the lexemes met on a depth-first,
//! left-to-right walk, with each visible group giving its two delimiters.

use vstd::prelude::*;
use crate::token::{Delimiter, ItemModel, Token, TokenItem, TokenModel, TokenTree};

verus! {

/// One step of the walk over a tree: a token, or a delimiter character.
#[derive(Debug, PartialEq, Eq)]
pub enum Lexeme {
    Token(Token),
    Open(Delimiter),
    Close(Delimiter),
}

/// Mathematical model of a [`Lexeme`].
pub ghost enum LexemeModel {
    Token(TokenModel),
    Open(Delimiter),
    Close(Delimiter),
}

impl View for Lexeme {
    type V = LexemeModel;

    open spec fn view(&self) -> LexemeModel {
        match self {
            Lexeme::Token(token) => LexemeModel::Token(token@),
            Lexeme::Open(delimiter) => LexemeModel::Open(*delimiter),
            Lexeme::Close(delimiter) => LexemeModel::Close(*delimiter),
        }
    }
}

/// The models of a vector of lexemes, in order.
pub open spec fn lexeme_models(lexemes: Seq<Lexeme>) -> Seq<LexemeModel> {
    Seq::new(lexemes.len(), |i: int| lexemes[i]@)
}

/// The source text of a token: an identifier or integer verbatim, a quoted
/// literal with its quotes put back, a punctuation character by itself.
pub open spec fn token_text(token: TokenModel) -> Seq<char> {
    match token {
        TokenModel::Identifier(text) => text,
        TokenModel::Literal(kind, text) => match kind.quote() {
            Some(q) => seq![q] + text + seq![q],
            None => text,
        },
        TokenModel::Punctuation(symbol, _) => seq![symbol],
    }
}

/// The source text of a lexeme.
pub open spec fn lexeme_text(lexeme: LexemeModel) -> Seq<char> {
    match lexeme {
        LexemeModel::Token(token) => token_text(token),
        LexemeModel::Open(delimiter) => match delimiter.opening() {
            Some(c) => seq![c],
            None => Seq::empty(),
        },
        LexemeModel::Close(delimiter) => match delimiter.closing() {
            Some(c) => seq![c],
            None => Seq::empty(),
        },
    }
}

/// Whether the lexeme is a punctuation token fused to what follows it.
pub open spec fn lexeme_joint(lexeme: LexemeModel) -> bool {
    lexeme matches LexemeModel::Token(TokenModel::Punctuation(_, joint)) && joint
}

/// The lexemes of one item. An invisible group gives only those of its body.
pub open spec fn lexemes_of_item(item: ItemModel) -> Seq<LexemeModel>
    decreases item,
{
    match item {
        ItemModel::Token(token) => seq![LexemeModel::Token(token)],
        ItemModel::Group(delimiter, body) => if delimiter == Delimiter::Invisible {
            lexemes(body)
        } else {
            seq![LexemeModel::Open(delimiter)] + lexemes(body) + seq![
                LexemeModel::Close(delimiter),
            ]
        },
    }
}

/// The lexemes of a tree, depth first and left to right.
pub open spec fn lexemes(items: Seq<ItemModel>) -> Seq<LexemeModel>
    decreases items,
{
    if items.len() == 0 {
        Seq::empty()
    } else {
        lexemes(items.drop_last()) + lexemes_of_item(items.last())
    }
}

/// Walking one more item appends that item's lexemes.
pub proof fn lemma_lexemes_take(items: Seq<ItemModel>, i: int)
    requires
        0 <= i < items.len(),
    ensures
        lexemes(items.take(i + 1)) == lexemes(items.take(i)) + lexemes_of_item(items[i]),
{
    assert(items.take(i + 1).drop_last() =~= items.take(i));
}

/// The walk over two trees in a row is the two walks in a row.
pub proof fn lemma_lexemes_concat(a: Seq<ItemModel>, b: Seq<ItemModel>)
    ensures
        lexemes(a + b) == lexemes(a) + lexemes(b),
    decreases b.len(),
{
    if b.len() == 0 {
        assert(a + b =~= a);
    } else {
        lemma_lexemes_concat(a, b.drop_last());
        assert((a + b).drop_last() =~= a + b.drop_last());
        assert((a + b).last() == b.last());
    }
}

/// The walk over a one-item tree is the walk over the item.
pub proof fn lemma_lexemes_single(item: ItemModel)
    ensures
        lexemes(seq![item]) == lexemes_of_item(item),
{
    assert(seq![item].drop_last() =~= Seq::<ItemModel>::empty());
    assert(lexemes(Seq::<ItemModel>::empty()) =~= Seq::<LexemeModel>::empty());
    assert(lexemes(seq![item]) =~= lexemes_of_item(item));
}

/// Appends the lexemes of one item.
fn walk_item(item: &TokenItem, walk: &mut Vec<Lexeme>)
    ensures
        lexeme_models(final(walk)@) == lexeme_models(old(walk)@) + lexemes_of_item(item@),
    decreases item,
{
    let ghost before = lexeme_models(walk@);
    match item {
        TokenItem::Token(token) => {
            walk.push(Lexeme::Token(token.clone()));
            assert(lexeme_models(walk@) =~= before + lexemes_of_item(item@));
        },
        TokenItem::Group(group) => {
            if group.delimiter == Delimiter::Invisible {
                walk_tree(&group.body, walk);
            } else {
                walk.push(Lexeme::Open(group.delimiter));
                assert(lexeme_models(walk@) =~= before + seq![LexemeModel::Open(group.delimiter)]);
                walk_tree(&group.body, walk);
                let ghost inner = lexeme_models(walk@);
                walk.push(Lexeme::Close(group.delimiter));
                assert(lexeme_models(walk@) =~= inner + seq![LexemeModel::Close(group.delimiter)]);
                assert(lexeme_models(walk@) =~= before + lexemes_of_item(item@));
            }
        },
    }
}

/// Appends the lexemes of a tree.
fn walk_tree(tree: &TokenTree, walk: &mut Vec<Lexeme>)
    ensures
        lexeme_models(final(walk)@) == lexeme_models(old(walk)@) + lexemes(tree@),
    decreases tree,
{
    let ghost before = lexeme_models(walk@);
    let mut i: usize = 0;
    assert(before + lexemes(tree@.take(0)) =~= before);
    while i < tree.items.len()
        invariant
            i <= tree.items.len(),
            lexeme_models(walk@) == before + lexemes(tree@.take(i as int)),
        decreases tree.items.len() - i,
    {
        proof {
            lemma_lexemes_take(tree@, i as int);
        }
        let ghost so_far = lexemes(tree@.take(i as int));
        walk_item(&tree.items[i], walk);
        assert((before + so_far) + lexemes_of_item(tree@[i as int]) =~= before + (so_far
            + lexemes_of_item(tree@[i as int])));
        i += 1;
    }
    assert(tree@.take(i as int) =~= tree@);
}

/// The lexemes of a tree in the order of a depth-first, left-to-right walk.
pub fn walk(tree: &TokenTree) -> (found: Vec<Lexeme>)
    ensures
        lexeme_models(found@) == lexemes(tree@),
{
    let mut found: Vec<Lexeme> = Vec::new();
    assert(lexeme_models(found@) =~= Seq::<LexemeModel>::empty());
    walk_tree(tree, &mut found);
    assert(Seq::<LexemeModel>::empty() + lexemes(tree@) =~= lexemes(tree@));
    found
}

} // verus!
