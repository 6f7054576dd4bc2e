use crate::token::TokenView;
use crate::tokenizer::{char_class, CharClass};
use vstd::prelude::*;

verus! {

/// Whether `c` carries the Unicode property `White_Space`.
pub open spec fn is_whitespace_char(c: char) -> bool {
    ||| ('\u{9}' <= c && c <= '\u{d}')
    ||| c == ' '
    ||| c == '\u{85}'
    ||| c == '\u{a0}'
    ||| c == '\u{1680}'
    ||| ('\u{2000}' <= c && c <= '\u{200a}')
    ||| c == '\u{2028}'
    ||| c == '\u{2029}'
    ||| c == '\u{202f}'
    ||| c == '\u{205f}'
    ||| c == '\u{3000}'
}

/// The reasons for which a text is not a sequence of tokens.
#[derive(Copy, Clone, Debug, PartialEq, Eq, Structural)]
pub enum LexErrorKind {
    /// A character that belongs to no class, or reserved punctuation outside
    /// a comment.
    UnexpectedChar,
    /// A letter or an operator character directly after a digit.
    InvalidAfterDigit,
    /// A literal outside the range of a signed 64-bit integer.
    IntegerOverflow,
    /// A comment that the text does not close.
    UnterminatedComment,
}

/// A lexical fault and where it was found.
#[derive(Copy, Clone, Debug, PartialEq, Eq, Structural)]
pub struct LexError {
    pub kind: LexErrorKind,
    /// The number of characters before the fault.
    pub position: usize,
    /// The line of the fault, counted from 1.
    pub line: usize,
    /// The column of the fault in its line, counted from 1.
    pub column: usize,
}

/// The line, counted from 1, of the position `pos` of `s`.
pub open spec fn line_of(s: Seq<char>, pos: int) -> int
    decreases pos,
{
    if pos <= 0 {
        1
    } else if s[pos - 1] == '\n' {
        line_of(s, pos - 1) + 1
    } else {
        line_of(s, pos - 1)
    }
}

/// The column, counted from 1, of the position `pos` of `s`.
pub open spec fn column_of(s: Seq<char>, pos: int) -> int
    decreases pos,
{
    if pos <= 0 {
        1
    } else if s[pos - 1] == '\n' {
        1
    } else {
        column_of(s, pos - 1) + 1
    }
}

/// The number `n` as a machine integer: the nearest that the type holds.
pub open spec fn clamp(n: int) -> usize {
    if n < 0 {
        0
    } else if n > usize::MAX {
        usize::MAX
    } else {
        n as usize
    }
}

/// The fault of kind `kind` at the position `pos` of `s`.
pub open spec fn fault(s: Seq<char>, kind: LexErrorKind, pos: int) -> LexError {
    LexError {
        kind,
        position: clamp(pos),
        line: clamp(line_of(s, pos)),
        column: clamp(column_of(s, pos)),
    }
}

pub open spec fn is_digit(c: char) -> bool {
    '0' <= c && c <= '9'
}

/// Whether `c` extends a word that has begun.
pub open spec fn continues_word(c: char) -> bool {
    match char_class(c) {
        Some(k) => k.continues_word(),
        None => false,
    }
}

/// The end of the longest run of word characters of `s` that begins at `from`.
pub open spec fn word_end(s: Seq<char>, from: int) -> int
    decreases s.len() - from,
{
    if 0 <= from < s.len() && continues_word(s[from]) {
        word_end(s, from + 1)
    } else {
        from
    }
}

/// The end of the longest run of digits of `s` that begins at `from`.
pub open spec fn digits_end(s: Seq<char>, from: int) -> int
    decreases s.len() - from,
{
    if 0 <= from < s.len() && is_digit(s[from]) {
        digits_end(s, from + 1)
    } else {
        from
    }
}

/// Where the comment ends whose text begins at `from`, behind its opening
/// `(*`: behind the first `*)`. A character of no class before that is a
/// fault, and so is the end of the text.
pub open spec fn comment_end(s: Seq<char>, from: int) -> Result<int, LexError>
    decreases s.len() - from,
{
    if from < 0 || from >= s.len() {
        Err(fault(s, LexErrorKind::UnterminatedComment, s.len() as int))
    } else if char_class(s[from]) is None {
        Err(fault(s, LexErrorKind::UnexpectedChar, from))
    } else if s[from] == '*' && from + 1 < s.len() && s[from + 1] == ')' {
        Ok(from + 2)
    } else {
        comment_end(s, from + 1)
    }
}

/// The number that a run of digits denotes in base ten.
pub open spec fn decimal_value(digits: Seq<char>) -> int
    decreases digits.len(),
{
    if digits.len() == 0 {
        0
    } else {
        decimal_value(digits.drop_last()) * 10 + (digits.last() as int - '0' as int)
    }
}

/// The number that a literal denotes: a run of digits, or `-` and a run of
/// digits.
pub open spec fn numeral_value(text: Seq<char>) -> int {
    if text.len() > 0 && text[0] == '-' {
        -decimal_value(text.skip(1))
    } else {
        decimal_value(text)
    }
}

/// The token that a spelling is reserved for.
pub open spec fn keyword(text: Seq<char>) -> Option<TokenView> {
    if text =~= seq!['d', 'e', 'c', 'l'] {
        Some(TokenView::Decl)
    } else if text =~= seq!['w', 'h', 'i', 'l', 'e'] {
        Some(TokenView::While)
    } else if text =~= seq!['d', 'o'] {
        Some(TokenView::Do)
    } else if text =~= seq!['d', 'o', 'n', 'e'] {
        Some(TokenView::Done)
    } else if text =~= seq!['m', 'a', 't', 'c', 'h'] {
        Some(TokenView::Match)
    } else if text =~= seq!['w', 'i', 't', 'h'] {
        Some(TokenView::With)
    } else if text =~= seq!['i', 'n'] {
        Some(TokenView::In)
    } else if text =~= seq!['p', 'r', 'i', 'n', 't'] {
        Some(TokenView::Print)
    } else if text =~= seq!['<'] {
        Some(TokenView::Less)
    } else if text =~= seq!['>'] {
        Some(TokenView::Greater)
    } else if text =~= seq!['='] {
        Some(TokenView::Equals)
    } else if text =~= seq!['!', '='] {
        Some(TokenView::NotEquals)
    } else if text =~= seq!['+'] {
        Some(TokenView::Plus)
    } else if text =~= seq!['-'] {
        Some(TokenView::Minus)
    } else if text =~= seq!['*'] {
        Some(TokenView::Star)
    } else if text =~= seq!['/'] {
        Some(TokenView::Slash)
    } else if text =~= seq!['%'] {
        Some(TokenView::Percent)
    } else if text =~= seq!['-', '>'] {
        Some(TokenView::Arrow)
    } else if text =~= seq!['<', '-'] {
        Some(TokenView::Assign)
    } else if text =~= seq!['|'] {
        Some(TokenView::Pipe)
    } else if text =~= seq!['_'] {
        Some(TokenView::Underscore)
    } else {
        None
    }
}

/// The token of a word: its keyword, or else an identifier.
pub open spec fn word_token(text: Seq<char>) -> TokenView {
    match keyword(text) {
        Some(t) => t,
        None => TokenView::Identifier(text),
    }
}

/// One piece of a text: where it ends, and the token that it yields, if any
/// (white space and comments yield none).
pub ghost struct Piece {
    pub end: int,
    pub token: Option<TokenView>,
}

/// The literal of `s` that begins at `start` and whose digits begin at
/// `digits` (at `start`, or behind a minus sign there).
pub open spec fn numeral_piece(s: Seq<char>, start: int, digits: int) -> Result<Piece, LexError> {
    let end = digits_end(s, digits);
    let value = numeral_value(s.subrange(start, end));
    if end < s.len() && char_class(s[end]) is None {
        Err(fault(s, LexErrorKind::UnexpectedChar, end))
    } else if end < s.len() && !char_class(s[end])->0.ends_number() {
        Err(fault(s, LexErrorKind::InvalidAfterDigit, end))
    } else if value < i64::MIN || value > i64::MAX {
        Err(fault(s, LexErrorKind::IntegerOverflow, end))
    } else {
        Ok(Piece { end, token: Some(TokenView::IntegerLiteral(value as i64)) })
    }
}

/// The piece of `s` that begins at `pos`, where `0 <= pos < s.len()`.
pub open spec fn piece_at(s: Seq<char>, pos: int) -> Result<Piece, LexError> {
    match char_class(s[pos]) {
        None => Err(fault(s, LexErrorKind::UnexpectedChar, pos)),
        Some(CharClass::PunctGroup) => Err(fault(s, LexErrorKind::UnexpectedChar, pos)),
        Some(CharClass::Whitespace) => Ok(Piece { end: pos + 1, token: None }),
        Some(CharClass::Semicolon) => Ok(Piece { end: pos + 1, token: Some(TokenView::Semicolon) }),
        Some(CharClass::RParen) => Ok(Piece { end: pos + 1, token: Some(TokenView::ParenR) }),
        Some(CharClass::LParen) => if pos + 1 < s.len() && s[pos + 1] == '*' {
            match comment_end(s, pos + 2) {
                Ok(end) => Ok(Piece { end, token: None }),
                Err(e) => Err(e),
            }
        } else {
            Ok(Piece { end: pos + 1, token: Some(TokenView::ParenL) })
        },
        Some(CharClass::Digit) => numeral_piece(s, pos, pos),
        Some(k) => if k == CharClass::Minus && pos + 1 < s.len() && is_digit(s[pos + 1]) {
            numeral_piece(s, pos, pos + 1)
        } else {
            let end = word_end(s, pos + 1);
            Ok(Piece { end, token: Some(word_token(s.subrange(pos, end))) })
        },
    }
}

/// A result with `tokens` put in front of the tokens of `rest`.
pub open spec fn prepend(tokens: Seq<TokenView>, rest: Result<Seq<TokenView>, LexError>) -> Result<
    Seq<TokenView>,
    LexError,
> {
    match rest {
        Ok(more) => Ok(tokens + more),
        Err(e) => Err(e),
    }
}

/// The tokens of `s` from `pos` on, where a piece begins at `pos`.
pub open spec fn lex_from(s: Seq<char>, pos: int) -> Result<Seq<TokenView>, LexError>
    decreases s.len() - pos,
{
    if pos < 0 || pos >= s.len() {
        Ok(Seq::empty())
    } else {
        match piece_at(s, pos) {
            Err(e) => Err(e),
            Ok(piece) => if piece.end <= pos || piece.end > s.len() {
                Ok(Seq::empty())
            } else {
                match piece.token {
                    Some(t) => prepend(seq![t], lex_from(s, piece.end)),
                    None => lex_from(s, piece.end),
                }
            },
        }
    }
}

/// The tokens of a text: its pieces from left to right, each the longest
/// that begins where the one before ended, without white space and comments;
/// or the first fault.
pub open spec fn lex(s: Seq<char>) -> Result<Seq<TokenView>, LexError> {
    lex_from(s, 0)
}

} // verus!
