//! The tokenizer: source text cut into lexemes.
//!
//! Whitespace separates lexemes and is otherwise dropped. An identifier or an
//! integer is the longest run of its characters; a quoted literal runs to its
//! closing quote; every punctuation and delimiter character is a lexeme of
//! its own. A punctuation token is joint when the character right after it is
//! not whitespace.

use vstd::prelude::*;
use crate::chars::{
    char_in_run, char_is_digit, char_is_ident_start, char_is_punct, char_is_space, in_run,
    is_digit, is_ident_start, is_punct, is_space,
};
use crate::lexeme::{lexeme_models, Lexeme, LexemeModel};
use crate::text::{chars_of, string_of};
use crate::token::{
    closed_by, delimiter_closed_by, delimiter_opened_by, literal_quoted_by, opened_by, quoted_by,
    LiteralKind, Token, TokenModel,
};

verus! {

/// Why a text could not be read back as a token tree.
#[derive(Clone, Copy, Debug, PartialEq, Eq, Structural)]
pub enum LexError {
    /// A character that begins no lexeme.
    UnexpectedCharacter,
    /// A quoted literal without its closing quote.
    UnterminatedLiteral,
    /// A closing delimiter that closes nothing, or a group left open.
    UnbalancedDelimiter,
}

/// Length of the longest prefix of `s` made of characters of the run's class.
pub open spec fn run_len(s: Seq<char>, digits_only: bool) -> int
    decreases s.len(),
{
    if s.len() > 0 && in_run(s[0], digits_only) {
        1 + run_len(s.skip(1), digits_only)
    } else {
        0
    }
}

/// Where the quote stands that closes a literal whose body begins at `s[0]`:
/// the first `quote` that no backslash takes along.
pub open spec fn quoted_end(s: Seq<char>, quote: char) -> Option<int>
    decreases s.len(),
{
    if s.len() == 0 {
        None
    } else if s[0] == '\\' {
        if s.len() >= 2 {
            match quoted_end(s.skip(2), quote) {
                Some(n) => Some(n + 2),
                None => None,
            }
        } else {
            None
        }
    } else if s[0] == quote {
        Some(0)
    } else {
        match quoted_end(s.skip(1), quote) {
            Some(n) => Some(n + 1),
            None => None,
        }
    }
}

/// The lexeme that begins at `s[0]`, with the number of characters it takes.
pub open spec fn first_lexeme(s: Seq<char>) -> Result<(LexemeModel, int), LexError>
    recommends
        s.len() > 0,
{
    let c = s[0];
    if is_ident_start(c) {
        let n = run_len(s, false);
        Ok((LexemeModel::Token(TokenModel::Identifier(s.take(n))), n))
    } else if is_digit(c) {
        let n = run_len(s, true);
        Ok((LexemeModel::Token(TokenModel::Literal(LiteralKind::Integer, s.take(n))), n))
    } else if let Some(kind) = quoted_by(c) {
        match quoted_end(s.skip(1), c) {
            Some(n) => Ok(
                (LexemeModel::Token(TokenModel::Literal(kind, s.subrange(1, n + 1))), n + 2),
            ),
            None => Err(LexError::UnterminatedLiteral),
        }
    } else if is_punct(c) {
        Ok((LexemeModel::Token(TokenModel::Punctuation(c, s.len() > 1 && !is_space(s[1]))), 1))
    } else if let Some(delimiter) = opened_by(c) {
        Ok((LexemeModel::Open(delimiter), 1))
    } else if let Some(delimiter) = closed_by(c) {
        Ok((LexemeModel::Close(delimiter), 1))
    } else {
        Err(LexError::UnexpectedCharacter)
    }
}

/// `lexemes` in front of what `rest` holds, or the error of `rest`.
pub open spec fn prepend(
    lexemes: Seq<LexemeModel>,
    rest: Result<Seq<LexemeModel>, LexError>,
) -> Result<Seq<LexemeModel>, LexError> {
    match rest {
        Ok(more) => Ok(lexemes + more),
        Err(e) => Err(e),
    }
}

/// The lexemes of a text, or the first error met from the left.
pub open spec fn scan_spec(s: Seq<char>) -> Result<Seq<LexemeModel>, LexError>
    decreases s.len(),
{
    if s.len() == 0 {
        Ok(Seq::empty())
    } else if is_space(s[0]) {
        scan_spec(s.skip(1))
    } else {
        match first_lexeme(s) {
            Ok((lexeme, n)) => if 0 < n <= s.len() {
                prepend(seq![lexeme], scan_spec(s.skip(n)))
            } else {
                Err(LexError::UnexpectedCharacter)
            },
            Err(e) => Err(e),
        }
    }
}

/// A run is no longer than its text, and not empty when its first character
/// is of the class.
pub proof fn lemma_run_len_bounds(s: Seq<char>, digits_only: bool)
    ensures
        0 <= run_len(s, digits_only) <= s.len(),
        s.len() > 0 && in_run(s[0], digits_only) ==> run_len(s, digits_only) >= 1,
    decreases s.len(),
{
    if s.len() > 0 && in_run(s[0], digits_only) {
        lemma_run_len_bounds(s.skip(1), digits_only);
    }
}

/// The closing quote, where there is one, lies within the text.
pub proof fn lemma_quoted_end_bounds(s: Seq<char>, quote: char)
    ensures
        quoted_end(s, quote) matches Some(n) ==> 0 <= n < s.len() && s[n] == quote,
    decreases s.len(),
{
    if s.len() == 0 {
    } else if s[0] == '\\' {
        if s.len() >= 2 {
            lemma_quoted_end_bounds(s.skip(2), quote);
        }
    } else if s[0] != quote {
        lemma_quoted_end_bounds(s.skip(1), quote);
    }
}

/// A lexeme takes at least one character and no more than there are.
pub proof fn lemma_first_lexeme_len(s: Seq<char>)
    requires
        s.len() > 0,
    ensures
        first_lexeme(s) matches Ok((_, n)) ==> 0 < n <= s.len(),
{
    lemma_run_len_bounds(s, false);
    lemma_run_len_bounds(s, true);
    lemma_quoted_end_bounds(s.skip(1), s[0]);
}

/// Where the run that begins at `from` ends.
fn run_end(chars: &Vec<char>, from: usize, digits_only: bool) -> (end: usize)
    requires
        from <= chars.len(),
    ensures
        from <= end <= chars.len(),
        end == from + run_len(chars@.skip(from as int), digits_only),
{
    let mut end: usize = from;
    while end < chars.len() && char_in_run(chars[end], digits_only)
        invariant
            from <= end <= chars.len(),
            run_len(chars@.skip(from as int), digits_only) == (end - from) + run_len(
                chars@.skip(end as int),
                digits_only,
            ),
        decreases chars.len() - end,
    {
        assert(chars@.skip(end as int).skip(1) =~= chars@.skip(end + 1));
        end += 1;
    }
    end
}

/// Where the quote stands that closes the literal whose body begins at `from`.
fn quoted_close(chars: &Vec<char>, from: usize, quote: char) -> (close: Option<usize>)
    requires
        from <= chars.len(),
    ensures
        match quoted_end(chars@.skip(from as int), quote) {
            Some(n) => 0 <= n && from + n < chars.len() && close == Some((from + n) as usize),
            None => close is None,
        },
{
    proof {
        lemma_quoted_end_bounds(chars@.skip(from as int), quote);
    }
    let mut i: usize = from;
    while i < chars.len()
        invariant
            from <= i <= chars.len(),
            match quoted_end(chars@.skip(i as int), quote) {
                Some(n) => quoted_end(chars@.skip(from as int), quote) == Some(n + i - from),
                None => quoted_end(chars@.skip(from as int), quote) is None,
            },
        decreases chars.len() - i,
    {
        proof {
            lemma_quoted_end_bounds(chars@.skip(i as int), quote);
        }
        let c = chars[i];
        if c == '\\' {
            if chars.len() - i < 2 {
                return None;
            }
            assert(chars@.skip(i as int).skip(2) =~= chars@.skip(i + 2));
            i += 2;
        } else if c == quote {
            return Some(i);
        } else {
            assert(chars@.skip(i as int).skip(1) =~= chars@.skip(i + 1));
            i += 1;
        }
    }
    None
}

/// Reads the lexeme that begins at `from`, and says where it ends.
fn read_lexeme(chars: &Vec<char>, from: usize) -> (result: Result<(Lexeme, usize), LexError>)
    requires
        from < chars.len(),
    ensures
        match first_lexeme(chars@.skip(from as int)) {
            Ok((lexeme, n)) => result matches Ok((read, end)) && read@ == lexeme && end == from + n
                && from < end <= chars.len(),
            Err(e) => result == Err::<(Lexeme, usize), LexError>(e),
        },
{
    let ghost s = chars@.skip(from as int);
    proof {
        lemma_first_lexeme_len(s);
    }
    let c = chars[from];
    if char_is_ident_start(c) {
        let end = run_end(chars, from, false);
        assert(s.take(end - from) =~= chars@.subrange(from as int, end as int));
        Ok((Lexeme::Token(Token::Identifier(string_of(chars, from, end))), end))
    } else if char_is_digit(c) {
        let end = run_end(chars, from, true);
        assert(s.take(end - from) =~= chars@.subrange(from as int, end as int));
        Ok((Lexeme::Token(Token::Literal(LiteralKind::Integer, string_of(chars, from, end))), end))
    } else if let Some(kind) = literal_quoted_by(c) {
        assert(s.skip(1) =~= chars@.skip(from + 1));
        match quoted_close(chars, from + 1, c) {
            Some(close) => {
                assert(s.subrange(1, close - from) =~= chars@.subrange(from + 1, close as int));
                Ok((Lexeme::Token(Token::Literal(kind, string_of(chars, from + 1, close))), close + 1))
            },
            None => Err(LexError::UnterminatedLiteral),
        }
    } else if char_is_punct(c) {
        let joint = from + 1 < chars.len() && !char_is_space(chars[from + 1]);
        Ok((Lexeme::Token(Token::Punctuation(c, joint)), from + 1))
    } else if let Some(delimiter) = delimiter_opened_by(c) {
        Ok((Lexeme::Open(delimiter), from + 1))
    } else if let Some(delimiter) = delimiter_closed_by(c) {
        Ok((Lexeme::Close(delimiter), from + 1))
    } else {
        Err(LexError::UnexpectedCharacter)
    }
}

/// Cuts a text into its lexemes.
///
/// Fails with the first error met from the left: a character that begins no
/// lexeme, or a quoted literal that is never closed.
pub fn scan(text: &str) -> (result: Result<Vec<Lexeme>, LexError>)
    ensures
        match scan_spec(text@) {
            Ok(lexemes) => result matches Ok(read) && lexeme_models(read@) == lexemes,
            Err(e) => result matches Err(f) && f == e,
        },
{
    let chars = chars_of(text);
    let mut read: Vec<Lexeme> = Vec::new();
    let mut pos: usize = 0;
    assert(chars@.skip(0) =~= chars@);
    assert(lexeme_models(read@) =~= Seq::<LexemeModel>::empty());
    while pos < chars.len()
        invariant
            pos <= chars.len(),
            chars@ == text@,
            scan_spec(text@) == prepend(lexeme_models(read@), scan_spec(chars@.skip(pos as int))),
        decreases chars.len() - pos,
    {
        let ghost s = chars@.skip(pos as int);
        let ghost before = lexeme_models(read@);
        if char_is_space(chars[pos]) {
            assert(s.skip(1) =~= chars@.skip(pos + 1));
            pos += 1;
        } else {
            match read_lexeme(&chars, pos) {
                Ok((lexeme, end)) => {
                    assert(s.skip(end - pos) =~= chars@.skip(end as int));
                    read.push(lexeme);
                    proof {
                        let rest = scan_spec(chars@.skip(end as int));
                        assert(lexeme_models(read@) =~= before + seq![lexeme@]);
                        if let Ok(more) = rest {
                            assert(before + (seq![lexeme@] + more) =~= (before + seq![lexeme@])
                                + more);
                        }
                    }
                    pos = end;
                },
                Err(e) => {
                    return Err(e);
                },
            }
        }
    }
    assert(lexeme_models(read@) + Seq::<LexemeModel>::empty() =~= lexeme_models(read@));
    Ok(read)
}

} // verus!
