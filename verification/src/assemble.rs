//! Lexemes gathered back into a token tree, and text read back as a tree.

use vstd::prelude::*;
use crate::lexeme::{lexeme_models, Lexeme, LexemeModel};
use crate::scan::{scan, scan_spec, LexError};
use crate::token::{Delimiter, Group, ItemModel, TokenItem, TokenTree};

verus! {

/// A group that has been opened and not yet closed.
pub ghost struct Frame {
    /// The delimiter that opened it.
    pub delimiter: Delimiter,
    /// The items gathered around it before it opened.
    pub before: Seq<ItemModel>,
}

/// The tree that results from reading `lexemes` with the groups of `stack`
/// open, the innermost last, and `current` gathered inside the innermost.
///
/// A token joins the current items. An opening delimiter sets the current
/// items aside and starts a body. A closing delimiter must match the
/// innermost open group: the body becomes one group item after the items set
/// aside. At the end no group may be open.
pub open spec fn assemble_from(
    stack: Seq<Frame>,
    current: Seq<ItemModel>,
    lexemes: Seq<LexemeModel>,
) -> Result<Seq<ItemModel>, LexError>
    decreases lexemes.len(),
{
    if lexemes.len() == 0 {
        if stack.len() == 0 {
            Ok(current)
        } else {
            Err(LexError::UnbalancedDelimiter)
        }
    } else {
        match lexemes[0] {
            LexemeModel::Token(token) => assemble_from(
                stack,
                current.push(ItemModel::Token(token)),
                lexemes.skip(1),
            ),
            LexemeModel::Open(delimiter) => assemble_from(
                stack.push(Frame { delimiter, before: current }),
                Seq::empty(),
                lexemes.skip(1),
            ),
            LexemeModel::Close(delimiter) => if stack.len() > 0 && stack.last().delimiter
                == delimiter {
                assemble_from(
                    stack.drop_last(),
                    stack.last().before.push(ItemModel::Group(delimiter, current)),
                    lexemes.skip(1),
                )
            } else {
                Err(LexError::UnbalancedDelimiter)
            },
        }
    }
}

/// The tree that a run of lexemes stands for.
pub open spec fn assemble_spec(lexemes: Seq<LexemeModel>) -> Result<Seq<ItemModel>, LexError> {
    assemble_from(Seq::empty(), Seq::empty(), lexemes)
}

/// The tree that a text stands for: its lexemes, gathered into groups.
pub open spec fn reparse_spec(text: Seq<char>) -> Result<Seq<ItemModel>, LexError> {
    match scan_spec(text) {
        Ok(lexemes) => assemble_spec(lexemes),
        Err(e) => Err(e),
    }
}

/// An open group while a tree is being assembled.
struct OpenGroup {
    delimiter: Delimiter,
    before: TokenTree,
}

/// The frames that a stack of open groups stands for.
spec fn frames(stack: Seq<OpenGroup>) -> Seq<Frame> {
    Seq::new(stack.len(), |i: int| Frame { delimiter: stack[i].delimiter, before: stack[i].before@ })
}

/// Gathers lexemes into a token tree.
///
/// Fails with `UnbalancedDelimiter` where a closing delimiter does not match
/// the innermost open group, or where a group is still open at the end.
pub fn assemble(lexemes: &Vec<Lexeme>) -> (result: Result<TokenTree, LexError>)
    ensures
        match assemble_spec(lexeme_models(lexemes@)) {
            Ok(items) => result matches Ok(tree) && tree@ == items,
            Err(e) => result matches Err(f) && f == e,
        },
{
    let ghost models = lexeme_models(lexemes@);
    let mut stack: Vec<OpenGroup> = Vec::new();
    let mut current = TokenTree::new();
    let mut i: usize = 0;
    assert(models.skip(0) =~= models);
    assert(frames(stack@) =~= Seq::<Frame>::empty());
    while i < lexemes.len()
        invariant
            i <= lexemes.len(),
            models == lexeme_models(lexemes@),
            assemble_spec(models) == assemble_from(frames(stack@), current@, models.skip(i as int)),
        decreases lexemes.len() - i,
    {
        let ghost open = frames(stack@);
        assert(models.skip(i as int).skip(1) =~= models.skip(i + 1));
        assert(models.skip(i as int)[0] == lexemes@[i as int]@);
        match &lexemes[i] {
            Lexeme::Token(token) => {
                current.push(TokenItem::Token(token.clone()));
            },
            Lexeme::Open(delimiter) => {
                stack.push(OpenGroup { delimiter: *delimiter, before: current });
                current = TokenTree::new();
                assert(frames(stack@) =~= open.push(
                    Frame { delimiter: *delimiter, before: stack@.last().before@ },
                ));
            },
            Lexeme::Close(delimiter) => {
                match stack.pop() {
                    Some(frame) => {
                        assert(open.last() == Frame {
                            delimiter: frame.delimiter,
                            before: frame.before@,
                        });
                        assert(frames(stack@) =~= open.drop_last());
                        if frame.delimiter != *delimiter {
                            return Err(LexError::UnbalancedDelimiter);
                        }
                        let mut parent = frame.before;
                        parent.push(TokenItem::Group(Group { delimiter: *delimiter, body: current }));
                        current = parent;
                    },
                    None => {
                        return Err(LexError::UnbalancedDelimiter);
                    },
                }
            },
        }
        i += 1;
    }
    if stack.len() == 0 {
        Ok(current)
    } else {
        Err(LexError::UnbalancedDelimiter)
    }
}

/// Reads a text back as a token tree.
///
/// Fails with the first lexical error of the text, and otherwise with
/// `UnbalancedDelimiter` where its delimiters do not nest.
pub fn reparse(text: &str) -> (result: Result<TokenTree, LexError>)
    ensures
        match reparse_spec(text@) {
            Ok(items) => result matches Ok(tree) && tree@ == items,
            Err(e) => result matches Err(f) && f == e,
        },
{
    match scan(text) {
        Ok(lexemes) => assemble(&lexemes),
        Err(e) => Err(e),
    }
}

} // verus!
