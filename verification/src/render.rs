//! The stringifier: a token tree rendered back into source text.
//!
//! The spacing rule is uniform. The lexemes of the tree are written in walk
//! order, delimiters included, with exactly one space between two neighbours,
//! except after a punctuation token whose joint flag is set, where nothing is
//! written. An empty brace group therefore renders as `{ }`.

use vstd::prelude::*;
use vstd::string::*;
use crate::lexeme::{
    lemma_lexemes_concat, lemma_lexemes_single, lemma_lexemes_take, lexeme_joint, lexeme_text,
    lexemes, lexemes_of_item, LexemeModel,
};
use crate::token::{ItemModel, Token, TokenItem, TokenModel, TokenTree};

verus! {

/// What separates a lexeme from the one before it.
pub open spec fn gap(tight: bool) -> Seq<char> {
    if tight {
        Seq::empty()
    } else {
        seq![' ']
    }
}

/// The text of `lexemes` in order. Each lexeme is preceded by one space,
/// except the first when `tight` holds and any that follows a joint
/// punctuation token.
pub open spec fn spaced(lexemes: Seq<LexemeModel>, tight: bool) -> Seq<char>
    decreases lexemes.len(),
{
    if lexemes.len() == 0 {
        Seq::empty()
    } else {
        gap(tight) + lexeme_text(lexemes[0]) + spaced(lexemes.skip(1), lexeme_joint(lexemes[0]))
    }
}

/// Whether the lexeme that follows `lexemes` is written without a space.
pub open spec fn tight_after(lexemes: Seq<LexemeModel>, tight: bool) -> bool {
    if lexemes.len() == 0 {
        tight
    } else {
        lexeme_joint(lexemes.last())
    }
}

/// The rendered text of a tree.
pub open spec fn render_spec(items: Seq<ItemModel>) -> Seq<char> {
    spaced(lexemes(items), true)
}

/// Text written for two runs of lexemes is the text of the first followed by
/// the text of the second, spaced according to how the first run ended.
pub proof fn lemma_spaced_concat(a: Seq<LexemeModel>, b: Seq<LexemeModel>, tight: bool)
    ensures
        spaced(a + b, tight) == spaced(a, tight) + spaced(b, tight_after(a, tight)),
        tight_after(a + b, tight) == tight_after(b, tight_after(a, tight)),
    decreases a.len(),
{
    if a.len() == 0 {
        assert(a + b =~= b);
    } else {
        lemma_spaced_concat(a.skip(1), b, lexeme_joint(a[0]));
        assert((a + b).skip(1) =~= a.skip(1) + b);
        assert((a + b)[0] == a[0]);
        if a.len() > 1 {
            assert(a.skip(1).last() == a.last());
        }
    }
}

/// The text written for a single lexeme.
pub proof fn lemma_spaced_one(lexeme: LexemeModel, tight: bool)
    ensures
        spaced(seq![lexeme], tight) == gap(tight) + lexeme_text(lexeme),
        tight_after(seq![lexeme], tight) == lexeme_joint(lexeme),
{
    assert(seq![lexeme].skip(1) =~= Seq::<LexemeModel>::empty());
    reveal_with_fuel(spaced, 2);
}

/// The empty tree renders as the empty text.
pub proof fn lemma_render_empty()
    ensures
        render_spec(Seq::empty()) == Seq::<char>::empty(),
{
    assert(lexemes(Seq::<ItemModel>::empty()) =~= Seq::<LexemeModel>::empty());
}

/// A joint punctuation lexeme and the punctuation lexeme after it are
/// written as one unbroken run, whatever stands before and after them.
pub proof fn lemma_joint_run(
    before: Seq<LexemeModel>,
    first: char,
    second: char,
    second_joint: bool,
    after: Seq<LexemeModel>,
    tight: bool,
)
    ensures
        spaced(
            before + seq![
                LexemeModel::Token(TokenModel::Punctuation(first, true)),
                LexemeModel::Token(TokenModel::Punctuation(second, second_joint)),
            ] + after,
            tight,
        ) == spaced(before, tight) + gap(tight_after(before, tight)) + seq![first, second]
            + spaced(after, second_joint),
{
    let one = LexemeModel::Token(TokenModel::Punctuation(first, true));
    let two = LexemeModel::Token(TokenModel::Punctuation(second, second_joint));
    let pair = seq![one, two];
    let inner = tight_after(before, tight);
    lemma_spaced_concat(before, pair + after, tight);
    lemma_spaced_concat(pair, after, inner);
    lemma_spaced_concat(seq![one], seq![two], inner);
    lemma_spaced_one(one, inner);
    lemma_spaced_one(two, true);
    assert(pair =~= seq![one] + seq![two]);
    assert(before + pair + after =~= before + (pair + after));
    assert(spaced(pair, inner) =~= gap(inner) + seq![first, second]);
    assert(spaced(before, tight) + (gap(inner) + seq![first, second] + spaced(after, second_joint))
        =~= spaced(before, tight) + gap(inner) + seq![first, second] + spaced(
        after,
        second_joint,
    ));
}

/// Two neighbouring punctuation tokens of which the first is joint render
/// with nothing between them: the text of the tree is what is written up to
/// them, the two characters side by side, and what is written after them.
pub proof fn lemma_joint_punctuation_adjacent(
    before: Seq<ItemModel>,
    first: char,
    second: char,
    second_joint: bool,
    after: Seq<ItemModel>,
)
    ensures
        render_spec(
            before + seq![
                ItemModel::Token(TokenModel::Punctuation(first, true)),
                ItemModel::Token(TokenModel::Punctuation(second, second_joint)),
            ] + after,
        ) == render_spec(before) + gap(tight_after(lexemes(before), true)) + seq![first, second]
            + spaced(lexemes(after), second_joint),
{
    let one = ItemModel::Token(TokenModel::Punctuation(first, true));
    let two = ItemModel::Token(TokenModel::Punctuation(second, second_joint));
    lemma_lexemes_concat(before + seq![one, two], after);
    lemma_lexemes_concat(before, seq![one, two]);
    lemma_lexemes_concat(seq![one], seq![two]);
    lemma_lexemes_single(one);
    lemma_lexemes_single(two);
    assert(seq![one, two] =~= seq![one] + seq![two]);
    assert(lexemes(seq![one, two]) =~= seq![
        LexemeModel::Token(TokenModel::Punctuation(first, true)),
        LexemeModel::Token(TokenModel::Punctuation(second, second_joint)),
    ]);
    lemma_joint_run(lexemes(before), first, second, second_joint, lexemes(after), true);
}

/// Writes the separator that `tight` calls for.
fn push_gap(out: &mut String, tight: bool)
    ensures
        final(out)@ == old(out)@ + gap(tight),
{
    if !tight {
        out.push(' ');
    }
}

/// Writes one token after its separator.
fn render_token_into(token: &Token, out: &mut String, tight: bool) -> (after: bool)
    ensures
        final(out)@ == old(out)@ + spaced(seq![LexemeModel::Token(token@)], tight),
        after == lexeme_joint(LexemeModel::Token(token@)),
{
    proof {
        lemma_spaced_one(LexemeModel::Token(token@), tight);
    }
    push_gap(out, tight);
    match token {
        Token::Identifier(text) => {
            out.append(text.as_str());
            false
        },
        Token::Literal(kind, text) => {
            match kind.quote_char() {
                Some(q) => {
                    out.push(q);
                    out.append(text.as_str());
                    out.push(q);
                },
                None => {
                    out.append(text.as_str());
                },
            }
            false
        },
        Token::Punctuation(symbol, joint) => {
            out.push(*symbol);
            *joint
        },
    }
}

/// Writes one item: a token, or a group with its delimiters around its body.
fn render_item_into(item: &TokenItem, out: &mut String, tight: bool) -> (after: bool)
    ensures
        final(out)@ == old(out)@ + spaced(lexemes_of_item(item@), tight),
        after == tight_after(lexemes_of_item(item@), tight),
    decreases item,
{
    match item {
        TokenItem::Token(token) => render_token_into(token, out, tight),
        TokenItem::Group(group) => {
            let ghost body = lexemes(group.body@);
            match (group.delimiter.open_char(), group.delimiter.close_char()) {
                (Some(open), Some(close)) => {
                    let ghost first = LexemeModel::Open(group.delimiter);
                    let ghost last = LexemeModel::Close(group.delimiter);
                    proof {
                        lemma_spaced_one(first, tight);
                        lemma_spaced_one(last, tight_after(body, false));
                        lemma_spaced_concat(seq![first], body, tight);
                        lemma_spaced_concat(seq![first] + body, seq![last], tight);
                    }
                    push_gap(out, tight);
                    out.push(open);
                    let inner = render_tree_into(&group.body, out, false);
                    push_gap(out, inner);
                    out.push(close);
                    false
                },
                _ => render_tree_into(&group.body, out, tight),
            }
        },
    }
}

/// Writes the items of a tree in order.
fn render_tree_into(tree: &TokenTree, out: &mut String, tight: bool) -> (after: bool)
    ensures
        final(out)@ == old(out)@ + spaced(lexemes(tree@), tight),
        after == tight_after(lexemes(tree@), tight),
    decreases tree,
{
    let ghost start = out@;
    let mut now = tight;
    let mut i: usize = 0;
    while i < tree.items.len()
        invariant
            i <= tree.items.len(),
            out@ == start + spaced(lexemes(tree@.take(i as int)), tight),
            now == tight_after(lexemes(tree@.take(i as int)), tight),
        decreases tree.items.len() - i,
    {
        proof {
            lemma_lexemes_take(tree@, i as int);
            lemma_spaced_concat(
                lexemes(tree@.take(i as int)),
                lexemes_of_item(tree@[i as int]),
                tight,
            );
        }
        now = render_item_into(&tree.items[i], out, now);
        i += 1;
    }
    assert(tree@.take(i as int) =~= tree@);
    now
}

/// Renders a captured token tree as source text.
///
/// Tokens keep their order and their text; groups keep their delimiters
/// around their bodies. Neighbouring lexemes are separated by one space,
/// except after a joint punctuation token. Nothing is written for an empty
/// tree.
pub fn render(tree: &TokenTree) -> (text: String)
    ensures
        text@ == render_spec(tree@),
{
    let mut out = String::new();
    let _ = render_tree_into(tree, &mut out, true);
    out
}

} // verus!
