use crate::lexical::{
    comment_end, continues_word, decimal_value, digits_end, is_digit, is_whitespace_char, keyword,
    lex, lex_from, numeral_piece, numeral_value, piece_at, word_end, word_token, LexError, Piece,
};
use crate::lexical_laws::{
    begins_afresh, comment_close, lemma_digits_run, lemma_outside_plain, lemma_outside_then,
    lemma_single_passes, lemma_word_characters, lemma_word_holds, lemma_word_passes,
    lemma_word_run, outside, outside_from, piece_begins, piece_passes,
};
use crate::token::TokenView;
use crate::tokenizer::{char_class, CharClass};
use vstd::prelude::*;

verus! {

/// The character of a digit.
pub open spec fn digit_char(d: int) -> char {
    if d == 0 {
        '0'
    } else if d == 1 {
        '1'
    } else if d == 2 {
        '2'
    } else if d == 3 {
        '3'
    } else if d == 4 {
        '4'
    } else if d == 5 {
        '5'
    } else if d == 6 {
        '6'
    } else if d == 7 {
        '7'
    } else if d == 8 {
        '8'
    } else {
        '9'
    }
}

/// The digits of a number that is not negative, in base ten, without
/// leading zeros.
pub open spec fn digits_of(n: int) -> Seq<char>
    decreases n,
{
    if n < 10 {
        seq![digit_char(n)]
    } else {
        digits_of(n / 10).push(digit_char(n % 10))
    }
}

/// The spelling of a number in base ten: its digits, behind a minus sign
/// if it is negative.
pub open spec fn decimal_text(n: i64) -> Seq<char> {
    if n < 0 {
        seq!['-'] + digits_of(-(n as int))
    } else {
        digits_of(n as int)
    }
}

/// The spelling of a token: the text of an identifier, the digits of a
/// literal, and for every other token the characters that it is written
/// with.
pub open spec fn spelling(t: TokenView) -> Seq<char> {
    match t {
        TokenView::IntegerLiteral(n) => decimal_text(n),
        TokenView::Identifier(name) => name,
        TokenView::Decl => seq!['d', 'e', 'c', 'l'],
        TokenView::While => seq!['w', 'h', 'i', 'l', 'e'],
        TokenView::Do => seq!['d', 'o'],
        TokenView::Done => seq!['d', 'o', 'n', 'e'],
        TokenView::Match => seq!['m', 'a', 't', 'c', 'h'],
        TokenView::With => seq!['w', 'i', 't', 'h'],
        TokenView::In => seq!['i', 'n'],
        TokenView::Print => seq!['p', 'r', 'i', 'n', 't'],
        TokenView::Assign => seq!['<', '-'],
        TokenView::Arrow => seq!['-', '>'],
        TokenView::Pipe => seq!['|'],
        TokenView::Underscore => seq!['_'],
        TokenView::Semicolon => seq![';'],
        TokenView::ParenL => seq!['('],
        TokenView::ParenR => seq![')'],
        TokenView::Plus => seq!['+'],
        TokenView::Minus => seq!['-'],
        TokenView::Star => seq!['*'],
        TokenView::Slash => seq!['/'],
        TokenView::Percent => seq!['%'],
        TokenView::Equals => seq!['='],
        TokenView::NotEquals => seq!['!', '='],
        TokenView::Less => seq!['<'],
        TokenView::Greater => seq!['>'],
        TokenView::Exclam => seq!['!'],
        TokenView::Ampersand => seq!['&'],
    }
}

/// The spellings of tokens, one behind the other.
pub open spec fn spelled(tokens: Seq<TokenView>) -> Seq<char>
    decreases tokens.len(),
{
    if tokens.len() == 0 {
        Seq::empty()
    } else {
        spelling(tokens[0]) + spelled(tokens.drop_first())
    }
}

/// The text from `pos` on without its white space and its comments, where
/// `pos` is outside every comment.
pub open spec fn stripped_from(s: Seq<char>, pos: int) -> Seq<char>
    decreases s.len() - pos,
{
    if pos < 0 || pos >= s.len() {
        Seq::empty()
    } else if s[pos] == '(' && pos + 1 < s.len() && s[pos + 1] == '*' {
        match comment_close(s, pos + 2) {
            Some(end) => if pos < end <= s.len() {
                stripped_from(s, end)
            } else {
                Seq::empty()
            },
            None => Seq::empty(),
        }
    } else if is_whitespace_char(s[pos]) {
        stripped_from(s, pos + 1)
    } else {
        seq![s[pos]] + stripped_from(s, pos + 1)
    }
}

/// The text without its white space and its comments.
pub open spec fn stripped(s: Seq<char>) -> Seq<char> {
    stripped_from(s, 0)
}

/// Whether every literal of the text is written as its number is spelled:
/// no literal outside a comment begins with `0` and goes on, or with `-0`.
pub open spec fn literals_plain(s: Seq<char>) -> bool {
    &&& forall|i: int|
        0 <= i && i + 1 < s.len() && outside(s, i) && begins_afresh(s, i) && #[trigger] s[i]
            == '0' ==> !is_digit(s[i + 1])
    &&& forall|i: int|
        0 <= i && i + 1 < s.len() && outside(s, i) && begins_afresh(s, i) && #[trigger] s[i]
            == '-' ==> s[i + 1] != '0'
}

/// A run of digits without a leading zero denotes a number that is spelled
/// with these digits.
proof fn lemma_digits_respell(digits: Seq<char>)
    requires
        digits.len() > 0,
        forall|j: int| 0 <= j < digits.len() ==> is_digit(#[trigger] digits[j]),
        digits[0] != '0' || digits.len() == 1,
    ensures
        digits_of(decimal_value(digits)) == digits,
        digits[0] != '0' ==> decimal_value(digits) >= 1,
        decimal_value(digits) >= 0,
    decreases digits.len(),
{
    let init = digits.drop_last();
    let d = digits.last() as int - '0' as int;
    assert(is_digit(digits[digits.len() - 1]));
    assert(digit_char(d) == digits.last());
    if digits.len() == 1 {
        assert(init.len() == 0);
        assert(decimal_value(init) == 0);
        assert(decimal_value(digits) == d);
        assert(seq![digit_char(d)] =~= digits);
    } else {
        assert(init[0] == digits[0]);
        assert forall|j: int| 0 <= j < init.len() implies is_digit(#[trigger] init[j]) by {
            assert(init[j] == digits[j]);
        }
        lemma_digits_respell(init);
        let v = decimal_value(init);
        assert(decimal_value(digits) == v * 10 + d);
        assert((v * 10 + d) / 10 == v && (v * 10 + d) % 10 == d) by (nonlinear_arith)
            requires
                0 <= d < 10,
                v >= 0,
        ;
        assert(init.push(digits.last()) =~= digits);
    }
}

/// Every reserved spelling is the spelling of its token.
proof fn lemma_keyword_respells(text: Seq<char>)
    requires
        keyword(text) is Some,
    ensures
        spelling(keyword(text)->0) == text,
{
    if text =~= seq!['d', 'e', 'c', 'l'] {
    } else if text =~= seq!['w', 'h', 'i', 'l', 'e'] {
    } else if text =~= seq!['d', 'o'] {
    } else if text =~= seq!['d', 'o', 'n', 'e'] {
    } else if text =~= seq!['m', 'a', 't', 'c', 'h'] {
    } else if text =~= seq!['w', 'i', 't', 'h'] {
    } else if text =~= seq!['i', 'n'] {
    } else if text =~= seq!['p', 'r', 'i', 'n', 't'] {
    } else if text =~= seq!['<'] {
    } else if text =~= seq!['>'] {
    } else if text =~= seq!['='] {
    } else if text =~= seq!['!', '='] {
    } else if text =~= seq!['+'] {
    } else if text =~= seq!['-'] {
    } else if text =~= seq!['*'] {
    } else if text =~= seq!['/'] {
    } else if text =~= seq!['%'] {
    } else if text =~= seq!['-', '>'] {
    } else if text =~= seq!['<', '-'] {
    } else if text =~= seq!['|'] {
    } else if text =~= seq!['_'] {
    }
}

/// A stretch without `(` and without white space stays as it is.
proof fn lemma_stripped_plain(s: Seq<char>, a: int, b: int)
    requires
        0 <= a <= b <= s.len(),
        forall|k: int| a <= k < b ==> #[trigger] s[k] != '(' && !is_whitespace_char(s[k]),
    ensures
        stripped_from(s, a) == s.subrange(a, b) + stripped_from(s, b),
    decreases b - a,
{
    if a < b {
        lemma_stripped_plain(s, a + 1, b);
        assert(s[a] != '(' && !is_whitespace_char(s[a]));
        assert(seq![s[a]] + (s.subrange(a + 1, b) + stripped_from(s, b)) =~= s.subrange(a, b)
            + stripped_from(s, b));
    } else {
        assert(s.subrange(a, b) + stripped_from(s, b) =~= stripped_from(s, b));
    }
}

/// A comment that ends, ends behind the first `*)`.
proof fn lemma_comment_end_is_close(s: Seq<char>, from: int)
    requires
        0 <= from,
        comment_end(s, from) is Ok,
    ensures
        comment_close(s, from) == Some(comment_end(s, from)->Ok_0),
        from + 2 <= comment_end(s, from)->Ok_0 <= s.len(),
        s[comment_end(s, from)->Ok_0 - 1] == ')',
    decreases s.len() - from,
{
    if !(s[from] == '*' && from + 1 < s.len() && s[from + 1] == ')') {
        lemma_comment_end_is_close(s, from + 1);
    }
}

/// No character of a word or of a literal is white space.
proof fn lemma_word_character_stays(c: char)
    ensures
        continues_word(c) ==> !is_whitespace_char(c) && c != '(',
        is_digit(c) ==> continues_word(c),
        c == '-' ==> continues_word(c),
{
}

/// What a piece without fault adds to the text without white space and
/// comments: the spelling of its token.
spec fn piece_respells(s: Seq<char>, pos: int) -> bool {
    let piece = piece_at(s, pos)->Ok_0;
    &&& piece_passes(s, pos)
    &&& stripped_from(s, pos) == (match piece.token {
        Some(t) => spelling(t),
        None => Seq::empty(),
    }) + stripped_from(s, piece.end)
}

proof fn lemma_comment_respells(s: Seq<char>, pos: int)
    requires
        piece_begins(s, pos),
        pos + 1 < s.len(),
        s[pos] == '(',
        s[pos + 1] == '*',
        piece_at(s, pos) is Ok,
    ensures
        piece_respells(s, pos),
{
    lemma_comment_end_is_close(s, pos + 2);
    let end = comment_end(s, pos + 2)->Ok_0;
    assert(outside_from(s, end, end));
    assert(outside_from(s, pos, end));
    lemma_outside_then(s, 0, pos, end);
    lemma_word_characters(s[end - 1]);
    assert(Seq::<char>::empty() + stripped_from(s, end) =~= stripped_from(s, end));
}

proof fn lemma_single_respells(s: Seq<char>, pos: int)
    requires
        piece_begins(s, pos),
        pos < s.len(),
        char_class(s[pos]) matches Some(k) && (k == CharClass::Whitespace || k
            == CharClass::Semicolon || k == CharClass::RParen || (k == CharClass::LParen && !(pos
            + 1 < s.len() && s[pos + 1] == '*'))),
    ensures
        piece_respells(s, pos),
{
    lemma_single_passes(s, pos);
    assert(Seq::<char>::empty() + stripped_from(s, pos + 1) =~= stripped_from(s, pos + 1));
}

proof fn lemma_word_respells(s: Seq<char>, pos: int)
    requires
        piece_begins(s, pos),
        pos < s.len(),
        char_class(s[pos]) matches Some(k) && k.continues_word() && k != CharClass::Digit && !(k
            == CharClass::Minus && pos + 1 < s.len() && is_digit(s[pos + 1])),
    ensures
        piece_respells(s, pos),
{
    lemma_word_passes(s, pos);
    lemma_word_run(s, pos + 1);
    let end = word_end(s, pos + 1);
    let text = s.subrange(pos, end);
    assert forall|k: int| pos <= k < end implies #[trigger] s[k] != '(' && !is_whitespace_char(
        s[k],
    ) by {
        if k > pos {
            lemma_word_holds(s, pos + 1, k);
        }
        lemma_word_character_stays(s[k]);
    }
    lemma_stripped_plain(s, pos, end);
    if keyword(text) is Some {
        lemma_keyword_respells(text);
    }
    assert(piece_at(s, pos) == Ok::<Piece, LexError>(
        Piece { end, token: Some(word_token(text)) },
    ));
}

proof fn lemma_literal_respells(s: Seq<char>, pos: int)
    requires
        literals_plain(s),
        piece_begins(s, pos),
        pos < s.len(),
        is_digit(s[pos]) || (s[pos] == '-' && pos + 1 < s.len() && is_digit(s[pos + 1])),
        piece_at(s, pos) is Ok,
    ensures
        piece_respells(s, pos),
{
    let digits = if is_digit(s[pos]) {
        pos
    } else {
        pos + 1
    };
    lemma_digits_run(s, digits);
    let end = digits_end(s, digits);
    let run = s.subrange(digits, end);
    let text = s.subrange(pos, end);
    lemma_word_character_stays(s[pos]);
    assert(begins_afresh(s, pos));
    assert(numeral_piece(s, pos, digits) is Ok);
    assert forall|j: int| 0 <= j < run.len() implies is_digit(#[trigger] run[j]) by {
        assert(is_digit(s[digits + j]));
    }
    assert(run[0] == s[digits]);
    if is_digit(s[pos]) {
        if s[pos] == '0' && pos + 1 < s.len() {
            assert(!is_digit(s[pos + 1]));
            assert(end == pos + 1);
        }
        lemma_digits_respell(run);
        assert(numeral_value(text) == decimal_value(run));
    } else {
        assert(s[pos + 1] != '0');
        lemma_digits_respell(run);
        assert(text.skip(1) =~= run);
        assert(numeral_value(text) == -decimal_value(run));
        assert(seq!['-'] + run =~= text);
    }
    assert forall|k: int| pos <= k < end implies #[trigger] s[k] != '(' && !is_whitespace_char(
        s[k],
    ) by {
        if k >= digits {
            assert(is_digit(s[k]));
        }
        lemma_word_character_stays(s[k]);
    }
    lemma_stripped_plain(s, pos, end);
    lemma_outside_plain(s, pos, end);
    lemma_outside_then(s, 0, pos, end);
    assert(spelling(piece_at(s, pos)->Ok_0.token->0) == text);
}

proof fn lemma_respell_from(s: Seq<char>, pos: int)
    requires
        lex_from(s, pos) is Ok,
        literals_plain(s),
        piece_begins(s, pos),
    ensures
        spelled(lex_from(s, pos)->Ok_0) == stripped_from(s, pos),
    decreases s.len() - pos,
{
    if pos < s.len() {
        let k = char_class(s[pos])->0;
        if k == CharClass::LParen && pos + 1 < s.len() && s[pos + 1] == '*' {
            lemma_comment_respells(s, pos);
        } else if k == CharClass::Digit || (k == CharClass::Minus && pos + 1 < s.len() && is_digit(
            s[pos + 1],
        )) {
            lemma_literal_respells(s, pos);
        } else if k == CharClass::Whitespace || k == CharClass::Semicolon || k == CharClass::RParen
            || k == CharClass::LParen {
            lemma_single_respells(s, pos);
        } else {
            lemma_word_respells(s, pos);
        }
        let piece = piece_at(s, pos)->Ok_0;
        lemma_respell_from(s, piece.end);
        let rest = lex_from(s, piece.end)->Ok_0;
        match piece.token {
            Some(t) => {
                assert((seq![t] + rest).drop_first() =~= rest);
                assert((seq![t] + rest)[0] == t);
            },
            None => {
                assert(Seq::<char>::empty() + stripped_from(s, piece.end) =~= stripped_from(
                    s,
                    piece.end,
                ));
            },
        }
    }
}

/// The tokens of a text spell the text: the spellings of the tokens of a
/// text, one behind the other, are the text without its white space and
/// its comments, if every literal in it is written as its number is
/// spelled.
pub proof fn law_spellings_give_the_text(s: Seq<char>)
    requires
        lex(s) is Ok,
        literals_plain(s),
    ensures
        spelled(lex(s)->Ok_0) == stripped(s),
{
    lemma_respell_from(s, 0);
}

} // verus!
