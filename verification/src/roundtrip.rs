//! What reading a rendered text back gives: the laws that tie the
//! stringifier to the tokenizer.

use vstd::prelude::*;
use crate::assemble::{assemble_from, assemble_spec, reparse_spec, Frame};
use crate::chars::{in_run, is_space};
use crate::lexeme::{
    lemma_lexemes_concat, lemma_lexemes_single, lexeme_joint, lexeme_text, lexemes,
    lexemes_of_item, LexemeModel,
};
use crate::render::{gap, render_spec, spaced};
use crate::scan::{first_lexeme, prepend, quoted_end, run_len, scan_spec, LexError};
use crate::token::{
    is_quoted_body, item_well_formed, token_well_formed, tree_well_formed, Delimiter, ItemModel,
    TokenModel,
};

verus! {

/// A lexeme that the tokenizer can give: a well-formed token, or a delimiter
/// that has a character.
pub open spec fn lexeme_well_formed(lexeme: LexemeModel) -> bool {
    match lexeme {
        LexemeModel::Token(token) => token_well_formed(token),
        LexemeModel::Open(delimiter) => delimiter != Delimiter::Invisible,
        LexemeModel::Close(delimiter) => delimiter != Delimiter::Invisible,
    }
}

/// A run of lexemes each of which is well formed.
pub open spec fn lexemes_well_formed(lexemes: Seq<LexemeModel>) -> bool {
    forall|i: int| 0 <= i < lexemes.len() ==> lexeme_well_formed(#[trigger] lexemes[i])
}

/// The lexeme with its joint flag cleared, if it has one.
pub open spec fn loosened(lexeme: LexemeModel) -> LexemeModel {
    match lexeme {
        LexemeModel::Token(TokenModel::Punctuation(symbol, _)) => LexemeModel::Token(
            TokenModel::Punctuation(symbol, false),
        ),
        _ => lexeme,
    }
}

/// The lexemes with the joint flag of the last one cleared: nothing follows
/// it, so it is fused to nothing.
pub open spec fn settled_lexemes(lexemes: Seq<LexemeModel>) -> Seq<LexemeModel> {
    if lexemes.len() == 0 {
        lexemes
    } else {
        lexemes.update(lexemes.len() - 1, loosened(lexemes.last()))
    }
}

/// A run followed by a character outside its class, or by nothing, is read
/// whole and no further.
proof fn lemma_run_len_exact(run: Seq<char>, tail: Seq<char>, digits_only: bool)
    requires
        forall|i: int| 0 <= i < run.len() ==> in_run(#[trigger] run[i], digits_only),
        tail.len() == 0 || !in_run(tail[0], digits_only),
    ensures
        run_len(run + tail, digits_only) == run.len(),
    decreases run.len(),
{
    if run.len() == 0 {
        assert(run + tail =~= tail);
    } else {
        assert((run + tail)[0] == run[0]);
        assert((run + tail).skip(1) =~= run.skip(1) + tail);
        assert forall|i: int| 0 <= i < run.skip(1).len() implies in_run(
            #[trigger] run.skip(1)[i],
            digits_only,
        ) by {
            assert(run.skip(1)[i] == run[i + 1]);
        }
        lemma_run_len_exact(run.skip(1), tail, digits_only);
    }
}

/// The quote written after a quoted body is the one that closes it.
proof fn lemma_quoted_end_exact(body: Seq<char>, quote: char, tail: Seq<char>)
    requires
        is_quoted_body(body, quote),
        quote != '\\',
    ensures
        quoted_end(body + seq![quote] + tail, quote) == Some(body.len() as int),
    decreases body.len(),
{
    let s = body + seq![quote] + tail;
    if body.len() == 0 {
        assert(s[0] == quote);
    } else if body[0] == '\\' {
        assert(s[0] == '\\');
        assert(s.skip(2) =~= body.skip(2) + seq![quote] + tail);
        lemma_quoted_end_exact(body.skip(2), quote, tail);
    } else {
        assert(s[0] == body[0]);
        assert(s.skip(1) =~= body.skip(1) + seq![quote] + tail);
        lemma_quoted_end_exact(body.skip(1), quote, tail);
    }
}

/// The text of a well-formed lexeme is not empty and does not begin with
/// whitespace.
pub proof fn lemma_lexeme_text_head(lexeme: LexemeModel)
    requires
        lexeme_well_formed(lexeme),
    ensures
        lexeme_text(lexeme).len() > 0,
        !is_space(lexeme_text(lexeme)[0]),
{
}

/// Reading the text of a well-formed lexeme gives the lexeme back, whatever
/// comes after it, as long as a lexeme that is not joint is followed by
/// whitespace or by nothing.
proof fn lemma_first_lexeme_of_text(lexeme: LexemeModel, tail: Seq<char>)
    requires
        lexeme_well_formed(lexeme),
        tail.len() == 0 || is_space(tail[0]) || lexeme_joint(lexeme),
    ensures
        first_lexeme(lexeme_text(lexeme) + tail) == Ok::<(LexemeModel, int), LexError>(
            (
                if tail.len() > 0 && !is_space(tail[0]) {
                    lexeme
                } else {
                    loosened(lexeme)
                },
                lexeme_text(lexeme).len() as int,
            ),
        ),
{
    let text = lexeme_text(lexeme);
    let s = text + tail;
    lemma_lexeme_text_head(lexeme);
    assert(s[0] == text[0]);
    match lexeme {
        LexemeModel::Token(TokenModel::Identifier(name)) => {
            lemma_run_len_exact(name, tail, false);
            assert(s.take(name.len() as int) =~= name);
        },
        LexemeModel::Token(TokenModel::Literal(kind, body)) => {
            match kind.quote() {
                Some(q) => {
                    assert(s.skip(1) =~= body + seq![q] + tail);
                    lemma_quoted_end_exact(body, q, tail);
                    assert(s.subrange(1, body.len() as int + 1) =~= body);
                },
                None => {
                    lemma_run_len_exact(body, tail, true);
                    assert(s.take(body.len() as int) =~= body);
                },
            }
        },
        LexemeModel::Token(TokenModel::Punctuation(symbol, joint)) => {
            if tail.len() > 0 {
                assert(s[1] == tail[0]);
            }
        },
        LexemeModel::Open(_) => {},
        LexemeModel::Close(_) => {},
    }
}

/// Reading the text written for well-formed lexemes gives the lexemes back,
/// the last one with its joint flag cleared.
pub proof fn lemma_scan_spaced(lexemes: Seq<LexemeModel>, tight: bool)
    requires
        lexemes_well_formed(lexemes),
    ensures
        scan_spec(spaced(lexemes, tight)) == Ok::<Seq<LexemeModel>, LexError>(
            settled_lexemes(lexemes),
        ),
    decreases lexemes.len(),
{
    if lexemes.len() == 0 {
        assert(settled_lexemes(lexemes) =~= Seq::<LexemeModel>::empty());
    } else {
        let first = lexemes[0];
        let rest = lexemes.skip(1);
        let text = lexeme_text(first);
        let tail = spaced(rest, lexeme_joint(first));
        let body = text + tail;
        assert(lexemes_well_formed(rest)) by {
            assert forall|i: int| 0 <= i < rest.len() implies lexeme_well_formed(
                #[trigger] rest[i],
            ) by {
                assert(rest[i] == lexemes[i + 1]);
            }
        }
        lemma_scan_spaced(rest, lexeme_joint(first));
        lemma_lexeme_text_head(first);
        if rest.len() > 0 {
            lemma_lexeme_text_head(rest[0]);
            assert(tail[0] == (gap(lexeme_joint(first)) + lexeme_text(rest[0]))[0]);
        }
        lemma_first_lexeme_of_text(first, tail);
        let read = if tail.len() > 0 && !is_space(tail[0]) {
            first
        } else {
            loosened(first)
        };
        assert(body[0] == text[0]);
        assert(body.skip(text.len() as int) =~= tail);
        assert(scan_spec(body) == prepend(seq![read], scan_spec(tail)));
        assert(seq![read] + settled_lexemes(rest) =~= settled_lexemes(lexemes));
        if tight {
            assert(spaced(lexemes, tight) =~= body);
        } else {
            let all = spaced(lexemes, tight);
            assert(all =~= seq![' '] + body);
            assert(all[0] == ' ');
            assert(all.skip(1) =~= body);
        }
    }
}

/// The items that stand for `item` once invisible groups are taken away:
/// the body of an invisible group, spliced in its place; any other item
/// itself, with its own body treated likewise.
pub open spec fn spliced_item(item: ItemModel) -> Seq<ItemModel>
    decreases item,
{
    match item {
        ItemModel::Token(_) => seq![item],
        ItemModel::Group(delimiter, body) => if delimiter == Delimiter::Invisible {
            spliced(body)
        } else {
            seq![ItemModel::Group(delimiter, spliced(body))]
        },
    }
}

/// The tree without its invisible groups, at any depth.
pub open spec fn spliced(items: Seq<ItemModel>) -> Seq<ItemModel>
    decreases items,
{
    if items.len() == 0 {
        Seq::empty()
    } else {
        spliced(items.drop_last()) + spliced_item(items.last())
    }
}

/// The item with its joint flag cleared, if it has one.
pub open spec fn loosened_item(item: ItemModel) -> ItemModel {
    match item {
        ItemModel::Token(TokenModel::Punctuation(symbol, _)) => ItemModel::Token(
            TokenModel::Punctuation(symbol, false),
        ),
        _ => item,
    }
}

/// The tree with the joint flag of its last item cleared.
pub open spec fn settled(items: Seq<ItemModel>) -> Seq<ItemModel> {
    if items.len() == 0 {
        items
    } else {
        items.update(items.len() - 1, loosened_item(items.last()))
    }
}

/// The tree that a rendered text reads back as: invisible groups leave no
/// trace in the text, and a joint flag on the very last token has nothing to
/// attach to.
pub open spec fn canonical(items: Seq<ItemModel>) -> Seq<ItemModel> {
    settled(spliced(items))
}

/// An invisible group.
pub open spec fn is_invisible_group(item: ItemModel) -> bool {
    item matches ItemModel::Group(delimiter, _) && delimiter == Delimiter::Invisible
}

/// The lexemes of a well-formed item are well formed.
proof fn lemma_item_lexemes_well_formed(item: ItemModel)
    requires
        item_well_formed(item),
    ensures
        lexemes_well_formed(lexemes_of_item(item)),
    decreases item,
{
    match item {
        ItemModel::Token(_) => {},
        ItemModel::Group(_, body) => {
            lemma_lexemes_well_formed(body);
        },
    }
}

/// The lexemes of a well-formed tree are well formed.
pub proof fn lemma_lexemes_well_formed(items: Seq<ItemModel>)
    requires
        tree_well_formed(items),
    ensures
        lexemes_well_formed(lexemes(items)),
    decreases items,
{
    if items.len() > 0 {
        let front = items.drop_last();
        assert forall|i: int| 0 <= i < front.len() implies item_well_formed(
            #[trigger] front[i],
        ) by {
            assert(front[i] == items[i]);
        }
        lemma_lexemes_well_formed(front);
        lemma_item_lexemes_well_formed(items.last());
    }
}

/// Reading the lexemes of one item adds the item, spliced, to the current
/// items and leaves the open groups as they were.
proof fn lemma_assemble_item(
    stack: Seq<Frame>,
    current: Seq<ItemModel>,
    item: ItemModel,
    rest: Seq<LexemeModel>,
)
    ensures
        assemble_from(stack, current, lexemes_of_item(item) + rest) == assemble_from(
            stack,
            current + spliced_item(item),
            rest,
        ),
    decreases item,
{
    let all = lexemes_of_item(item) + rest;
    match item {
        ItemModel::Token(token) => {
            assert(all[0] == LexemeModel::Token(token));
            assert(all.skip(1) =~= rest);
            assert(current.push(item) =~= current + spliced_item(item));
        },
        ItemModel::Group(delimiter, body) => {
            if delimiter == Delimiter::Invisible {
                lemma_assemble_tree(stack, current, body, rest);
            } else {
                let close = seq![LexemeModel::Close(delimiter)] + rest;
                let frame = Frame { delimiter, before: current };
                let opened = stack.push(frame);
                assert(all[0] == LexemeModel::Open(delimiter));
                assert(all.skip(1) =~= lexemes(body) + close);
                lemma_assemble_tree(opened, Seq::empty(), body, close);
                assert(Seq::<ItemModel>::empty() + spliced(body) =~= spliced(body));
                assert(close[0] == LexemeModel::Close(delimiter));
                assert(close.skip(1) =~= rest);
                assert(opened.last() == frame);
                assert(opened.drop_last() =~= stack);
                assert(current.push(ItemModel::Group(delimiter, spliced(body))) =~= current
                    + spliced_item(item));
            }
        },
    }
}

/// Reading the lexemes of a tree adds its items, spliced, to the current
/// items and leaves the open groups as they were.
pub proof fn lemma_assemble_tree(
    stack: Seq<Frame>,
    current: Seq<ItemModel>,
    items: Seq<ItemModel>,
    rest: Seq<LexemeModel>,
)
    ensures
        assemble_from(stack, current, lexemes(items) + rest) == assemble_from(
            stack,
            current + spliced(items),
            rest,
        ),
    decreases items,
{
    if items.len() == 0 {
        assert(lexemes(items) + rest =~= rest);
        assert(current + spliced(items) =~= current);
    } else {
        let front = items.drop_last();
        let last = items.last();
        assert(lexemes(items) + rest =~= lexemes(front) + (lexemes_of_item(last) + rest));
        lemma_assemble_tree(stack, current, front, lexemes_of_item(last) + rest);
        lemma_assemble_item(stack, current + spliced(front), last, rest);
        assert((current + spliced(front)) + spliced_item(last) =~= current + spliced(items));
    }
}

/// The lexemes of a tree, on their own, read back as the tree without its
/// invisible groups.
pub proof fn lemma_assemble_lexemes(items: Seq<ItemModel>)
    ensures
        assemble_spec(lexemes(items)) == Ok::<Seq<ItemModel>, LexError>(spliced(items)),
{
    let none = Seq::<LexemeModel>::empty();
    lemma_assemble_tree(Seq::empty(), Seq::empty(), items, none);
    assert(lexemes(items) + none =~= lexemes(items));
    assert(Seq::<ItemModel>::empty() + spliced(items) =~= spliced(items));
}

/// Splicing a one-item tree is splicing the item.
proof fn lemma_spliced_single(item: ItemModel)
    ensures
        spliced(seq![item]) == spliced_item(item),
{
    assert(seq![item].drop_last() =~= Seq::<ItemModel>::empty());
    assert(spliced(Seq::<ItemModel>::empty()) =~= Seq::<ItemModel>::empty());
    assert(spliced(seq![item]) =~= spliced_item(item));
}

/// Splicing two trees in a row is splicing each.
proof fn lemma_spliced_concat(a: Seq<ItemModel>, b: Seq<ItemModel>)
    ensures
        spliced(a + b) == spliced(a) + spliced(b),
    decreases b.len(),
{
    if b.len() == 0 {
        assert(a + b =~= a);
    } else {
        lemma_spliced_concat(a, b.drop_last());
        assert((a + b).drop_last() =~= a + b.drop_last());
        assert((a + b).last() == b.last());
    }
}

/// Taking the invisible groups of an item away changes neither its lexemes
/// nor, done twice, anything more; and what is left holds no invisible group
/// at its top.
proof fn lemma_spliced_item_facts(item: ItemModel)
    ensures
        lexemes(spliced_item(item)) == lexemes_of_item(item),
        spliced(spliced_item(item)) == spliced_item(item),
        forall|i: int|
            0 <= i < spliced_item(item).len() ==> !is_invisible_group(
                #[trigger] spliced_item(item)[i],
            ),
    decreases item,
{
    match item {
        ItemModel::Token(_) => {
            lemma_lexemes_single(item);
            lemma_spliced_single(item);
        },
        ItemModel::Group(delimiter, body) => {
            lemma_spliced_facts(body);
            if delimiter != Delimiter::Invisible {
                let group = ItemModel::Group(delimiter, spliced(body));
                lemma_lexemes_single(group);
                lemma_spliced_single(group);
            }
        },
    }
}

/// Taking the invisible groups of a tree away changes neither its lexemes
/// nor, done twice, anything more; and what is left holds no invisible group
/// at its top.
pub proof fn lemma_spliced_facts(items: Seq<ItemModel>)
    ensures
        lexemes(spliced(items)) == lexemes(items),
        spliced(spliced(items)) == spliced(items),
        forall|i: int|
            0 <= i < spliced(items).len() ==> !is_invisible_group(#[trigger] spliced(items)[i]),
    decreases items,
{
    if items.len() > 0 {
        let front = items.drop_last();
        let last = items.last();
        lemma_spliced_facts(front);
        lemma_spliced_item_facts(last);
        lemma_lexemes_concat(spliced(front), spliced_item(last));
        lemma_spliced_concat(spliced(front), spliced_item(last));
    }
}

/// Clearing the last joint flag of a tree clears that of its lexemes, where
/// the tree does not end in an invisible group.
proof fn lemma_lexemes_settled(items: Seq<ItemModel>)
    requires
        items.len() > 0 ==> !is_invisible_group(items.last()),
    ensures
        lexemes(settled(items)) == settled_lexemes(lexemes(items)),
{
    if items.len() > 0 {
        let front = items.drop_last();
        let last = items.last();
        let after = settled(items);
        assert(after.drop_last() =~= front);
        assert(after.last() == loosened_item(last));
        match last {
            ItemModel::Token(token) => {
                let lexeme = LexemeModel::Token(token);
                assert(lexemes_of_item(last) =~= seq![lexeme]);
                assert(lexemes_of_item(after.last()) =~= seq![loosened(lexeme)]);
                assert(lexemes(items) == lexemes(front) + seq![lexeme]);
                assert(lexemes(after) == lexemes(front) + seq![loosened(lexeme)]);
                assert(settled_lexemes(lexemes(front) + seq![lexeme]) =~= lexemes(front)
                    + seq![loosened(lexeme)]);
            },
            ItemModel::Group(delimiter, body) => {
                let walk = lexemes_of_item(last);
                assert(after =~= items);
                assert(walk.last() == LexemeModel::Close(delimiter));
                assert(lexemes(items) == lexemes(front) + walk);
                assert(lexemes(items).last() == walk.last());
                assert(settled_lexemes(lexemes(items)) =~= lexemes(items));
            },
        }
    }
}

/// Clearing the last joint flag of a tree without invisible groups brings
/// none in.
proof fn lemma_spliced_settled(items: Seq<ItemModel>)
    requires
        spliced(items) == items,
    ensures
        spliced(settled(items)) == settled(items),
{
    if items.len() > 0 {
        let front = items.drop_last();
        let last = items.last();
        let after = settled(items);
        assert(after.drop_last() =~= front);
        match last {
            ItemModel::Token(_) => {
                assert(spliced_item(last) =~= seq![last]);
                assert(spliced_item(after.last()) =~= seq![after.last()]);
                assert(spliced(items) == spliced(front) + seq![last]);
                assert(spliced(front) =~= (spliced(front) + seq![last]).drop_last());
                assert(spliced(front) == front);
                assert(after.last() == loosened_item(last));
                assert(spliced(after) == spliced(front) + seq![after.last()]);
                assert(spliced(after) =~= after);
            },
            ItemModel::Group(_, _) => {
                assert(after =~= items);
            },
        }
    }
}

/// The joint flag of the last lexeme has no part in the text.
proof fn lemma_spaced_settled(lexemes: Seq<LexemeModel>, tight: bool)
    ensures
        spaced(settled_lexemes(lexemes), tight) == spaced(lexemes, tight),
    decreases lexemes.len(),
{
    let after = settled_lexemes(lexemes);
    if lexemes.len() == 1 {
        assert(after.skip(1) =~= lexemes.skip(1));
        assert(lexeme_text(after[0]) == lexeme_text(lexemes[0]));
        assert(lexemes.skip(1).len() == 0);
        reveal_with_fuel(spaced, 2);
    } else if lexemes.len() > 1 {
        assert(after[0] == lexemes[0]);
        assert(after.skip(1) =~= settled_lexemes(lexemes.skip(1)));
        lemma_spaced_settled(lexemes.skip(1), lexeme_joint(lexemes[0]));
    }
}

/// A rendered text reads back as the tree it was rendered from, in its
/// canonical form: every token with its kind and text, every visible group
/// with its delimiter and body, in the same order and the same nesting.
pub proof fn lemma_reparse_render(items: Seq<ItemModel>)
    requires
        tree_well_formed(items),
    ensures
        reparse_spec(render_spec(items)) == Ok::<Seq<ItemModel>, LexError>(canonical(items)),
{
    let plain = spliced(items);
    lemma_lexemes_well_formed(items);
    lemma_scan_spaced(lexemes(items), true);
    lemma_spliced_facts(items);
    lemma_lexemes_settled(plain);
    lemma_assemble_lexemes(settled(plain));
    lemma_spliced_settled(plain);
}

/// A tree and its canonical form render as the same text.
pub proof fn lemma_render_canonical(items: Seq<ItemModel>)
    ensures
        render_spec(canonical(items)) == render_spec(items),
{
    let plain = spliced(items);
    lemma_spliced_facts(items);
    lemma_lexemes_settled(plain);
    lemma_spaced_settled(lexemes(items), true);
}

/// Rendering is idempotent through the tokenizer: the rendered text of a
/// well-formed tree reads back as a tree, and that tree renders as the same
/// text again.
pub proof fn lemma_render_idempotent(items: Seq<ItemModel>)
    requires
        tree_well_formed(items),
    ensures
        reparse_spec(render_spec(items)) matches Ok(again) && render_spec(again) == render_spec(
            items,
        ),
{
    lemma_reparse_render(items);
    lemma_render_canonical(items);
}

/// The delimiters among `lexemes`, in order.
pub open spec fn delimiters_of(lexemes: Seq<LexemeModel>) -> Seq<LexemeModel>
    decreases lexemes.len(),
{
    if lexemes.len() == 0 {
        Seq::empty()
    } else if lexemes.last() is Token {
        delimiters_of(lexemes.drop_last())
    } else {
        delimiters_of(lexemes.drop_last()).push(lexemes.last())
    }
}

/// What is left of an item when its tokens are taken away: nothing of a
/// token, and of a group the group around what is left of its body.
pub open spec fn skeleton_item(item: ItemModel) -> Seq<ItemModel>
    decreases item,
{
    match item {
        ItemModel::Token(_) => Seq::empty(),
        ItemModel::Group(delimiter, body) => seq![ItemModel::Group(delimiter, skeleton(body))],
    }
}

/// What is left of a tree when its tokens are taken away: its groups, nested
/// as they were.
pub open spec fn skeleton(items: Seq<ItemModel>) -> Seq<ItemModel>
    decreases items,
{
    if items.len() == 0 {
        Seq::empty()
    } else {
        skeleton(items.drop_last()) + skeleton_item(items.last())
    }
}

/// The delimiters of a tree in walk order: each visible group gives its
/// opening delimiter, then those of its body, then its closing delimiter.
pub open spec fn nesting(items: Seq<ItemModel>) -> Seq<LexemeModel> {
    lexemes(skeleton(items))
}

/// The delimiters of two runs in a row are those of each.
proof fn lemma_delimiters_concat(a: Seq<LexemeModel>, b: Seq<LexemeModel>)
    ensures
        delimiters_of(a + b) == delimiters_of(a) + delimiters_of(b),
    decreases b.len(),
{
    if b.len() == 0 {
        assert(a + b =~= a);
    } else {
        lemma_delimiters_concat(a, b.drop_last());
        assert((a + b).drop_last() =~= a + b.drop_last());
        assert((a + b).last() == b.last());
    }
}

/// The delimiters of a single lexeme.
proof fn lemma_delimiters_single(lexeme: LexemeModel)
    ensures
        delimiters_of(seq![lexeme]) == if lexeme is Token {
            Seq::<LexemeModel>::empty()
        } else {
            seq![lexeme]
        },
{
    assert(seq![lexeme].drop_last() =~= Seq::<LexemeModel>::empty());
    assert(delimiters_of(Seq::<LexemeModel>::empty()) =~= Seq::<LexemeModel>::empty());
    assert(delimiters_of(seq![lexeme]) =~= if lexeme is Token {
        Seq::<LexemeModel>::empty()
    } else {
        seq![lexeme]
    });
}

/// The delimiters met on the walk over an item are the walk over its
/// skeleton.
proof fn lemma_item_delimiters(item: ItemModel)
    ensures
        delimiters_of(lexemes_of_item(item)) == lexemes(skeleton_item(item)),
    decreases item,
{
    match item {
        ItemModel::Token(token) => {
            lemma_delimiters_single(LexemeModel::Token(token));
            assert(lexemes(Seq::<ItemModel>::empty()) =~= Seq::<LexemeModel>::empty());
        },
        ItemModel::Group(delimiter, body) => {
            lemma_tree_delimiters(body);
            lemma_lexemes_single(ItemModel::Group(delimiter, skeleton(body)));
            if delimiter != Delimiter::Invisible {
                let open = LexemeModel::Open(delimiter);
                let close = LexemeModel::Close(delimiter);
                lemma_delimiters_single(open);
                lemma_delimiters_single(close);
                lemma_delimiters_concat(seq![open], lexemes(body));
                lemma_delimiters_concat(seq![open] + lexemes(body), seq![close]);
            }
        },
    }
}

/// The delimiters met on the walk over a tree are the walk over its
/// skeleton.
proof fn lemma_tree_delimiters(items: Seq<ItemModel>)
    ensures
        delimiters_of(lexemes(items)) == nesting(items),
    decreases items,
{
    if items.len() == 0 {
        assert(delimiters_of(Seq::<LexemeModel>::empty()) =~= Seq::<LexemeModel>::empty());
    } else {
        let front = items.drop_last();
        let last = items.last();
        lemma_tree_delimiters(front);
        lemma_item_delimiters(last);
        lemma_delimiters_concat(lexemes(front), lexemes_of_item(last));
        lemma_lexemes_concat(skeleton(front), skeleton_item(last));
    }
}

/// Rendering keeps the groups of a tree: the delimiters that the rendered
/// text of a well-formed tree holds outside its literals are, in order, those
/// of the tree, each group's pair around those of its body; and they match
/// one another, since on their own they read back as a tree.
pub proof fn lemma_render_keeps_nesting(items: Seq<ItemModel>)
    requires
        tree_well_formed(items),
    ensures
        scan_spec(render_spec(items)) matches Ok(read) && delimiters_of(read) == nesting(items),
        assemble_spec(nesting(items)) is Ok,
{
    let walk = lexemes(items);
    lemma_lexemes_well_formed(items);
    lemma_scan_spaced(walk, true);
    lemma_tree_delimiters(items);
    lemma_assemble_lexemes(skeleton(items));
    if walk.len() > 0 {
        let after = settled_lexemes(walk);
        assert(after.drop_last() =~= walk.drop_last());
        assert(after.last() == loosened(walk.last()));
    }
}

} // verus!
