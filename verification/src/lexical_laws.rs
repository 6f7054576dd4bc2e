use crate::lexical::{
    comment_end, continues_word, decimal_value, digits_end, fault, is_digit, is_whitespace_char,
    keyword, lex, lex_from, numeral_piece, numeral_value, piece_at, word_end, word_token, LexError,
    LexErrorKind, Piece,
};
use crate::scan::{all_digits, all_word, lemma_word_end, numeral_text, word_begins};
use crate::token::TokenView;
use crate::tokenizer::{char_class, lemma_decimal_value_nonnegative, CharClass};
use vstd::prelude::*;

verus! {

/// Whether `c` is a letter or an operator character, which may not follow
/// a digit of a literal.
pub open spec fn clashes_with_digit(c: char) -> bool {
    match char_class(c) {
        Some(k) => k != CharClass::Digit && !k.ends_number(),
        None => false,
    }
}

/// Whether a comment opens somewhere in `s`.
pub open spec fn opens_comment(s: Seq<char>) -> bool {
    exists|j: int| 0 <= j && j + 1 < s.len() && #[trigger] s[j] == '(' && s[j + 1] == '*'
}

/// Whether `e` is a fault of `s` at the position `p`, with the cause that
/// its kind names.
pub open spec fn fault_at(s: Seq<char>, e: LexError, p: int) -> bool {
    &&& e == fault(s, e.kind, p)
    &&& 0 <= p <= s.len()
    &&& match e.kind {
        LexErrorKind::UnexpectedChar => p < s.len() && (char_class(s[p]) is None || char_class(
            s[p],
        ) == Some(CharClass::PunctGroup)),
        LexErrorKind::InvalidAfterDigit => 0 < p < s.len() && is_digit(s[p - 1])
            && clashes_with_digit(s[p]),
        LexErrorKind::IntegerOverflow => 0 < p && is_digit(s[p - 1]),
        LexErrorKind::UnterminatedComment => p == s.len() && opens_comment(s),
    }
}

/// The longest run of digits from `from` on is a run of digits.
pub proof fn lemma_digits_run(s: Seq<char>, from: int)
    requires
        0 <= from <= s.len(),
    ensures
        from <= digits_end(s, from) <= s.len(),
        all_digits(s, from, digits_end(s, from)),
        digits_end(s, from) < s.len() ==> !is_digit(s[digits_end(s, from)]),
        from < s.len() && is_digit(s[from]) ==> from < digits_end(s, from),
    decreases s.len() - from,
{
    if from < s.len() && is_digit(s[from]) {
        lemma_digits_run(s, from + 1);
    }
}

/// The longest run of word characters from `from` on is within the text,
/// and the character behind it continues no word.
pub proof fn lemma_word_run(s: Seq<char>, from: int)
    requires
        0 <= from <= s.len(),
    ensures
        from <= word_end(s, from) <= s.len(),
        word_end(s, from) < s.len() ==> !continues_word(s[word_end(s, from)]),
    decreases s.len() - from,
{
    if from < s.len() && continues_word(s[from]) {
        lemma_word_run(s, from + 1);
    }
}

/// A comment that ends, ends with `*)` within the text; one that does not
/// runs into a character of no class or into the end of the text.
pub proof fn lemma_comment_run(s: Seq<char>, from: int)
    requires
        0 <= from <= s.len(),
    ensures
        match comment_end(s, from) {
            Ok(end) => from + 2 <= end <= s.len() && s[end - 2] == '*' && s[end - 1] == ')',
            Err(e) => e == fault(s, LexErrorKind::UnterminatedComment, s.len() as int) || exists|
                p: int,
            |
                from <= p < s.len() && char_class(s[p]) is None && e == fault(
                    s,
                    LexErrorKind::UnexpectedChar,
                    p,
                ),
        },
    decreases s.len() - from,
{
    if from < s.len() && char_class(s[from]) is Some && !(s[from] == '*' && from + 1 < s.len()
        && s[from + 1] == ')') {
        lemma_comment_run(s, from + 1);
    }
}

/// A literal that is a fault is one at the end of its digits.
proof fn lemma_numeral_fault(s: Seq<char>, start: int, digits: int) -> (p: int)
    requires
        0 <= start <= digits < s.len(),
        is_digit(s[digits]),
        numeral_piece(s, start, digits) is Err,
    ensures
        fault_at(s, numeral_piece(s, start, digits)->Err_0, p),
{
    lemma_digits_run(s, digits);
    digits_end(s, digits)
}

proof fn lemma_fault_cause_from(s: Seq<char>, pos: int) -> (p: int)
    requires
        0 <= pos,
        lex_from(s, pos) is Err,
    ensures
        fault_at(s, lex_from(s, pos)->Err_0, p),
    decreases s.len() - pos,
{
    match piece_at(s, pos) {
        Err(e) => {
            match char_class(s[pos]) {
                Some(CharClass::LParen) => {
                    lemma_comment_run(s, pos + 2);
                    if e == fault(s, LexErrorKind::UnterminatedComment, s.len() as int) {
                        assert(s[pos] == '(' && s[pos + 1] == '*');
                        s.len() as int
                    } else {
                        choose|p: int|
                            pos + 2 <= p < s.len() && char_class(s[p]) is None && e == fault(
                                s,
                                LexErrorKind::UnexpectedChar,
                                p,
                            )
                    }
                },
                Some(CharClass::Digit) => lemma_numeral_fault(s, pos, pos),
                Some(CharClass::Minus) => lemma_numeral_fault(s, pos, pos + 1),
                _ => pos,
            }
        },
        Ok(piece) => lemma_fault_cause_from(s, piece.end),
    }
}

/// The lexer fails for four causes only: a fault of a text stands at a
/// character of no class or at reserved punctuation outside a comment, at a
/// letter or operator character directly behind a digit, behind the digits
/// of a literal, or at the end of a text in which a comment opens. The
/// result is the position of the fault.
pub proof fn law_fault_cause(s: Seq<char>) -> (p: int)
    requires
        lex(s) is Err,
    ensures
        fault_at(s, lex(s)->Err_0, p),
{
    lemma_fault_cause_from(s, 0)
}

/// Where the comment ends whose text begins at `from`, behind its opening
/// `(*`: behind the first `*)`, if there is one.
pub open spec fn comment_close(s: Seq<char>, from: int) -> Option<int>
    decreases s.len() - from,
{
    if from < 0 || from + 1 >= s.len() {
        None
    } else if s[from] == '*' && s[from + 1] == ')' {
        Some(from + 2)
    } else {
        comment_close(s, from + 1)
    }
}

/// Whether the place `i` of the text is outside every comment, where the
/// place `from` before it is: no comment that opens from `from` on holds
/// it. The `(` that opens a comment is outside.
pub open spec fn outside_from(s: Seq<char>, from: int, i: int) -> bool
    decreases s.len() - from,
{
    if i <= from {
        i == from
    } else if from < 0 || from >= s.len() {
        false
    } else if s[from] == '(' && from + 1 < s.len() && s[from + 1] == '*' {
        match comment_close(s, from + 2) {
            Some(end) => if from < end <= i && end <= s.len() {
                outside_from(s, end, i)
            } else {
                false
            },
            None => false,
        }
    } else {
        outside_from(s, from + 1, i)
    }
}

/// Whether the place `i` of the text is outside every comment.
pub open spec fn outside(s: Seq<char>, i: int) -> bool {
    outside_from(s, 0, i)
}

/// Whether a word cannot go on into the place `i`: the text begins there,
/// or the character before it ends every word.
pub open spec fn begins_afresh(s: Seq<char>, i: int) -> bool {
    i == 0 || (0 < i <= s.len() && !continues_word(s[i - 1]))
}

/// Whether no reserved punctuation stands outside a comment.
pub open spec fn punctuation_in_comments(s: Seq<char>) -> bool {
    forall|i: int|
        0 <= i < s.len() && char_class(#[trigger] s[i]) == Some(CharClass::PunctGroup)
            ==> !outside(s, i)
}

/// Whether every comment is closed: behind every `(*` outside a comment
/// stands a `*)`.
pub open spec fn comments_closed(s: Seq<char>) -> bool {
    forall|i: int|
        0 <= i && i + 1 < s.len() && #[trigger] s[i] == '(' && s[i + 1] == '*' && outside(s, i)
            ==> comment_close(s, i + 2) is Some
}

/// Whether every literal is in the range of a signed 64-bit integer: the
/// digits of a literal outside a comment that begins afresh denote at most
/// `i64::MAX`, and those of one that begins afresh with a minus sign at
/// most the like of `i64::MIN`.
pub open spec fn literals_in_range(s: Seq<char>) -> bool {
    &&& forall|i: int, j: int|
        0 <= i < j <= s.len() && outside(s, i) && begins_afresh(s, i) && all_digits(s, i, j)
            ==> decimal_value(#[trigger] s.subrange(i, j)) <= i64::MAX
    &&& forall|i: int, j: int|
        1 <= i < j <= s.len() && s[i - 1] == '-' && outside(s, i - 1) && begins_afresh(s, i - 1)
            && all_digits(s, i, j) ==> decimal_value(#[trigger] s.subrange(i, j))
            <= 0x8000_0000_0000_0000
}

/// Places outside comments, one behind the other.
pub proof fn lemma_outside_then(s: Seq<char>, a: int, b: int, c: int)
    requires
        0 <= a <= b <= c,
        outside_from(s, a, b),
        outside_from(s, b, c),
    ensures
        outside_from(s, a, c),
    decreases s.len() - a,
{
    if a < b {
        if s[a] == '(' && a + 1 < s.len() && s[a + 1] == '*' {
            let end = comment_close(s, a + 2)->0;
            lemma_outside_then(s, end, b, c);
        } else {
            lemma_outside_then(s, a + 1, b, c);
        }
    }
}

/// A stretch without `(` holds no comment.
pub proof fn lemma_outside_plain(s: Seq<char>, a: int, b: int)
    requires
        0 <= a <= b <= s.len(),
        forall|k: int| a <= k < b ==> #[trigger] s[k] != '(',
    ensures
        outside_from(s, a, b),
    decreases b - a,
{
    if a < b {
        lemma_outside_plain(s, a + 1, b);
    }
}

/// In a text of which every character has a class, a comment ends where
/// the first `*)` ends.
proof fn lemma_comment_closes(s: Seq<char>, from: int)
    requires
        0 <= from,
        forall|i: int| 0 <= i < s.len() ==> char_class(#[trigger] s[i]) is Some,
        comment_close(s, from) is Some,
    ensures
        comment_end(s, from) == Ok::<int, LexError>(comment_close(s, from)->0),
        from + 2 <= comment_close(s, from)->0 <= s.len(),
        s[comment_close(s, from)->0 - 1] == ')',
    decreases s.len() - from,
{
    if !(s[from] == '*' && s[from + 1] == ')') {
        lemma_comment_closes(s, from + 1);
    }
}

/// Whether the text has none of the faults: every character has a class,
/// no digit is directly followed by a letter or an operator character,
/// every literal is in range, every comment is closed, and no reserved
/// punctuation stands outside a comment.
pub open spec fn faultless(s: Seq<char>) -> bool {
    &&& forall|i: int| 0 <= i < s.len() ==> char_class(#[trigger] s[i]) is Some
    &&& forall|i: int|
        0 < i < s.len() && is_digit(s[i - 1]) ==> !clashes_with_digit(#[trigger] s[i])
    &&& literals_in_range(s)
    &&& comments_closed(s)
    &&& punctuation_in_comments(s)
}

/// Whether a piece may begin at `pos`: the place is outside every comment,
/// and no word and no literal goes on into it.
pub open spec fn piece_begins(s: Seq<char>, pos: int) -> bool {
    &&& 0 <= pos <= s.len()
    &&& outside(s, pos)
    &&& (begins_afresh(s, pos) || pos == s.len() || (!is_digit(s[pos]) && s[pos] != '-'))
}

/// Whether the piece at `pos` is a piece without fault, behind which a
/// piece may begin.
pub open spec fn piece_passes(s: Seq<char>, pos: int) -> bool {
    piece_at(s, pos) matches Ok(piece) && pos < piece.end <= s.len() && piece_begins(
        s,
        piece.end,
    )
}

proof fn lemma_comment_passes(s: Seq<char>, pos: int)
    requires
        faultless(s),
        piece_begins(s, pos),
        pos + 1 < s.len(),
        s[pos] == '(',
        s[pos + 1] == '*',
    ensures
        piece_passes(s, pos),
{
    lemma_comment_closes(s, pos + 2);
    let end = comment_close(s, pos + 2)->0;
    assert(outside_from(s, end, end));
    assert(outside_from(s, pos, end));
    lemma_outside_then(s, 0, pos, end);
}

proof fn lemma_literal_passes(s: Seq<char>, pos: int)
    requires
        faultless(s),
        piece_begins(s, pos),
        pos < s.len(),
        is_digit(s[pos]) || (s[pos] == '-' && pos + 1 < s.len() && is_digit(s[pos + 1])),
    ensures
        piece_passes(s, pos),
{
    let digits = if is_digit(s[pos]) {
        pos
    } else {
        pos + 1
    };
    lemma_digits_run(s, digits);
    let end = digits_end(s, digits);
    let run = s.subrange(digits, end);
    assert forall|j: int| 0 <= j < run.len() implies is_digit(#[trigger] run[j]) by {
        assert(is_digit(s[digits + j]));
    }
    lemma_decimal_value_nonnegative(run);
    if is_digit(s[pos]) {
        assert(decimal_value(run) <= i64::MAX);
        assert(numeral_value(run) == decimal_value(run));
    } else {
        assert(decimal_value(run) <= 0x8000_0000_0000_0000);
        assert(s.subrange(pos, end).skip(1) =~= run);
        assert(numeral_value(s.subrange(pos, end)) == -decimal_value(run));
    }
    if end < s.len() {
        assert(is_digit(s[end - 1]));
        assert(!clashes_with_digit(s[end]));
    }
    assert(numeral_piece(s, pos, digits) is Ok);
    assert forall|j: int| pos <= j < end implies #[trigger] s[j] != '(' by {
        if j >= digits {
            assert(is_digit(s[j]));
        }
    }
    lemma_outside_plain(s, pos, end);
    lemma_outside_then(s, 0, pos, end);
}

pub proof fn lemma_word_passes(s: Seq<char>, pos: int)
    requires
        0 <= pos < s.len(),
        outside(s, pos),
        char_class(s[pos]) matches Some(k) && k.continues_word() && k != CharClass::Digit && !(k
            == CharClass::Minus && pos + 1 < s.len() && is_digit(s[pos + 1])),
    ensures
        piece_passes(s, pos),
{
    lemma_word_run(s, pos + 1);
    let end = word_end(s, pos + 1);
    assert forall|j: int| pos <= j < end implies #[trigger] s[j] != '(' by {
        if j > pos {
            lemma_word_holds(s, pos + 1, j);
        }
        lemma_word_characters(s[j]);
    }
    lemma_outside_plain(s, pos, end);
    lemma_outside_then(s, 0, pos, end);
    if end < s.len() {
        lemma_word_characters(s[end]);
    }
    assert(piece_at(s, pos) == Ok::<Piece, LexError>(
        Piece { end, token: Some(word_token(s.subrange(pos, end))) },
    ));
}

/// Digits and the minus sign continue a word, and `(` does not.
pub proof fn lemma_word_characters(c: char)
    ensures
        is_digit(c) ==> continues_word(c),
        c == '-' ==> continues_word(c),
        c == '(' ==> !continues_word(c),
{
}

pub proof fn lemma_single_passes(s: Seq<char>, pos: int)
    requires
        piece_begins(s, pos),
        pos < s.len(),
        char_class(s[pos]) matches Some(k) && (k == CharClass::Whitespace || k
            == CharClass::Semicolon || k == CharClass::RParen || (k == CharClass::LParen && !(pos
            + 1 < s.len() && s[pos + 1] == '*'))),
    ensures
        piece_passes(s, pos),
{
    assert(outside_from(s, pos + 1, pos + 1));
    assert(outside_from(s, pos, pos + 1));
    lemma_outside_then(s, 0, pos, pos + 1);
}

proof fn lemma_total_from(s: Seq<char>, pos: int)
    requires
        faultless(s),
        piece_begins(s, pos),
    ensures
        lex_from(s, pos) is Ok,
    decreases s.len() - pos,
{
    if pos < s.len() {
        let k = char_class(s[pos])->0;
        if k == CharClass::LParen && pos + 1 < s.len() && s[pos + 1] == '*' {
            lemma_comment_passes(s, pos);
        } else if k == CharClass::Digit || (k == CharClass::Minus && pos + 1 < s.len() && is_digit(
            s[pos + 1],
        )) {
            lemma_literal_passes(s, pos);
        } else if k == CharClass::Whitespace || k == CharClass::Semicolon || k == CharClass::RParen
            || k == CharClass::LParen {
            lemma_single_passes(s, pos);
        } else {
            lemma_word_passes(s, pos);
        }
        lemma_total_from(s, piece_at(s, pos)->Ok_0.end);
    }
}

/// Every character of the longest run of word characters continues a
/// word.
pub proof fn lemma_word_holds(s: Seq<char>, from: int, j: int)
    requires
        0 <= from <= j < word_end(s, from),
    ensures
        continues_word(s[j]),
    decreases s.len() - from,
{
    if from < j {
        lemma_word_holds(s, from + 1, j);
    }
}

/// The lexer is total: a text in which every character has a class and no
/// digit is directly followed by a letter or an operator character is a
/// sequence of tokens; if only every literal in it is in range, every
/// comment in it is closed, and no reserved punctuation stands in it
/// outside a comment.
pub proof fn law_lexer_total(s: Seq<char>)
    requires
        faultless(s),
    ensures
        lex(s) is Ok,
{
    lemma_total_from(s, 0);
}

/// A stretch of a text: a token's spelling, or white space or a comment,
/// which give no token.
pub ghost struct Segment {
    pub text: Seq<char>,
    pub token: Option<TokenView>,
}

/// Whether `text` is a spelling of `token`.
pub open spec fn spells(text: Seq<char>, token: TokenView) -> bool {
    match token {
        TokenView::IntegerLiteral(n) => numeral_text(text) && numeral_value(text) == n,
        TokenView::Identifier(name) => text == name && keyword(text) is None,
        TokenView::Semicolon => text == seq![';'],
        TokenView::ParenL => text == seq!['('],
        TokenView::ParenR => text == seq![')'],
        _ => keyword(text) == Some(token),
    }
}

/// Whether `text` is one white-space character, or a comment from `(*` to
/// `*)`.
pub open spec fn is_gap(text: Seq<char>) -> bool {
    ||| text.len() == 1 && is_whitespace_char(text[0])
    ||| text.len() >= 4 && text[0] == '(' && text[1] == '*' && text[text.len() - 2] == '*'
        && text[text.len() - 1] == ')'
}

impl Segment {
    /// Whether the segment's text is what its token, or its lack of one,
    /// asks for.
    pub open spec fn well_formed(self) -> bool {
        match self.token {
            Some(t) => spells(self.text, t),
            None => is_gap(self.text),
        }
    }
}

/// The texts of the segments, one behind the other.
pub open spec fn joined(segments: Seq<Segment>) -> Seq<char>
    decreases segments.len(),
{
    if segments.len() == 0 {
        Seq::empty()
    } else {
        segments[0].text + joined(segments.drop_first())
    }
}

/// The tokens of the segments, in order.
pub open spec fn tokens_of(segments: Seq<Segment>) -> Seq<TokenView>
    decreases segments.len(),
{
    if segments.len() == 0 {
        Seq::empty()
    } else {
        match segments[0].token {
            Some(t) => seq![t] + tokens_of(segments.drop_first()),
            None => tokens_of(segments.drop_first()),
        }
    }
}

proof fn lemma_segments_from(s: Seq<char>, pos: int) -> (segments: Seq<Segment>)
    requires
        0 <= pos <= s.len(),
        lex_from(s, pos) is Ok,
    ensures
        joined(segments) == s.subrange(pos, s.len() as int),
        tokens_of(segments) == lex_from(s, pos)->Ok_0,
        forall|i: int| 0 <= i < segments.len() ==> (#[trigger] segments[i]).well_formed(),
    decreases s.len() - pos,
{
    if pos >= s.len() {
        assert(s.subrange(pos, s.len() as int) =~= Seq::<char>::empty());
        Seq::empty()
    } else {
        let piece = piece_at(s, pos)->Ok_0;
        let text = s.subrange(pos, piece.end);
        let head = Segment { text, token: piece.token };
        match char_class(s[pos])->0 {
            CharClass::Whitespace | CharClass::Semicolon | CharClass::RParen => {
                assert(text =~= seq![s[pos]]);
            },
            CharClass::LParen => {
                if pos + 1 < s.len() && s[pos + 1] == '*' {
                    lemma_comment_run(s, pos + 2);
                } else {
                    assert(text =~= seq![s[pos]]);
                }
            },
            CharClass::Digit => {
                lemma_digits_run(s, pos);
            },
            k => {
                if k == CharClass::Minus && pos + 1 < s.len() && is_digit(s[pos + 1]) {
                    lemma_digits_run(s, pos + 1);
                } else {
                    lemma_word_run(s, pos + 1);
                }
            },
        }
        assert(pos < piece.end <= s.len());
        assert(head.well_formed());
        let rest = lemma_segments_from(s, piece.end);
        let segments = seq![head] + rest;
        assert(segments.drop_first() =~= rest);
        assert(text + s.subrange(piece.end, s.len() as int) =~= s.subrange(pos, s.len() as int));
        segments
    }
}

/// The tokens of a text spell the text: a text that is a sequence of tokens
/// is cut into segments, one behind the other, each of which is a spelling
/// of one token, or else one white-space character or one comment; the
/// tokens of the segments, in order, are the tokens of the text.
pub proof fn law_tokens_spell_the_text(s: Seq<char>) -> (segments: Seq<Segment>)
    requires
        lex(s) is Ok,
    ensures
        joined(segments) == s,
        tokens_of(segments) == lex(s)->Ok_0,
        forall|i: int| 0 <= i < segments.len() ==> (#[trigger] segments[i]).well_formed(),
{
    let segments = lemma_segments_from(s, 0);
    assert(s.subrange(0, s.len() as int) =~= s);
    segments
}

/// A text that is one word is the token of that word.
pub proof fn lemma_single_word(s: Seq<char>)
    requires
        s.len() > 0,
        word_begins(s, 0),
        all_word(s, 1, s.len() as int),
    ensures
        lex(s) == Ok::<Seq<TokenView>, LexError>(seq![word_token(s)]),
{
    lemma_word_end(s, 1, s.len() as int);
    assert(s.subrange(0, s.len() as int) =~= s);
    assert(lex_from(s, s.len() as int) == Ok::<Seq<TokenView>, LexError>(Seq::empty()));
    assert(seq![word_token(s)] + Seq::<TokenView>::empty() =~= seq![word_token(s)]);
}

/// Every reserved spelling is a word of its own.
pub proof fn lemma_keyword_is_word(k: Seq<char>)
    requires
        keyword(k) is Some,
    ensures
        k.len() > 0,
        word_begins(k, 0),
        all_word(k, 1, k.len() as int),
        k.len() <= 5,
        k[0] == '-' ==> k.len() == 1 || k[1] == '>',
{
    if k =~= seq!['d', 'e', 'c', 'l'] {
    } else if k =~= seq!['w', 'h', 'i', 'l', 'e'] {
    } else if k =~= seq!['d', 'o'] {
    } else if k =~= seq!['d', 'o', 'n', 'e'] {
    } else if k =~= seq!['m', 'a', 't', 'c', 'h'] {
    } else if k =~= seq!['w', 'i', 't', 'h'] {
    } else if k =~= seq!['i', 'n'] {
    } else if k =~= seq!['p', 'r', 'i', 'n', 't'] {
    } else if k =~= seq!['<'] {
    } else if k =~= seq!['>'] {
    } else if k =~= seq!['='] {
    } else if k =~= seq!['!', '='] {
    } else if k =~= seq!['+'] {
    } else if k =~= seq!['-'] {
    } else if k =~= seq!['*'] {
    } else if k =~= seq!['/'] {
    } else if k =~= seq!['%'] {
    } else if k =~= seq!['-', '>'] {
    } else if k =~= seq!['<', '-'] {
    } else if k =~= seq!['|'] {
    } else if k =~= seq!['_'] {
    }
}

/// Keywords are found: every reserved spelling, alone, is its keyword.
pub proof fn law_keyword_alone(k: Seq<char>)
    requires
        keyword(k) is Some,
    ensures
        lex(k) == Ok::<Seq<TokenView>, LexError>(seq![keyword(k)->0]),
{
    lemma_keyword_is_word(k);
    lemma_single_word(k);
}

/// A reserved spelling directly followed by characters that continue a word
/// is one identifier, whose text begins with the spelling; unless the two
/// together are reserved again (`do` and `ne`, `<` and `-`, `-` and `>`), or
/// are a negative literal (`-` and a digit).
pub proof fn law_keyword_continued(k: Seq<char>, more: Seq<char>)
    requires
        keyword(k) is Some,
        more.len() > 0,
        forall|i: int| 0 <= i < more.len() ==> continues_word(#[trigger] more[i]),
        keyword(k + more) is None,
        !(k =~= seq!['-'] && is_digit(more[0])),
    ensures
        lex(k + more) == Ok::<Seq<TokenView>, LexError>(seq![TokenView::Identifier(k + more)]),
        (k + more).subrange(0, k.len() as int) == k,
{
    lemma_keyword_is_word(k);
    let s = k + more;
    assert(s.subrange(0, k.len() as int) =~= k);
    assert forall|j: int| 1 <= j < s.len() implies continues_word(#[trigger] s[j]) by {
        if j < k.len() {
            assert(s[j] == k[j]);
        } else {
            assert(s[j] == more[j - k.len()]);
        }
    }
    assert(s[0] == k[0]);
    if k.len() > 1 {
        assert(s[1] == k[1]);
    } else {
        assert(s[1] == more[0]);
    }
    assert(word_begins(s, 0));
    lemma_single_word(s);
}

/// `<-` between two white-space characters is the one token `Assign`, and
/// `->` the one token `Arrow`.
pub proof fn law_operators_fuse(before: char, after: char)
    requires
        is_whitespace_char(before),
        is_whitespace_char(after),
    ensures
        lex(seq![before, '<', '-', after]) == Ok::<Seq<TokenView>, LexError>(
            seq![TokenView::Assign],
        ),
        lex(seq![before, '-', '>', after]) == Ok::<Seq<TokenView>, LexError>(
            seq![TokenView::Arrow],
        ),
{
    lemma_fuses(seq![before, '<', '-', after], TokenView::Assign);
    lemma_fuses(seq![before, '-', '>', after], TokenView::Arrow);
}

proof fn lemma_fuses(s: Seq<char>, token: TokenView)
    requires
        s.len() == 4,
        is_whitespace_char(s[0]),
        is_whitespace_char(s[3]),
        (s[1] == '<' && s[2] == '-' && token == TokenView::Assign) || (s[1] == '-' && s[2] == '>'
            && token == TokenView::Arrow),
    ensures
        lex(s) == Ok::<Seq<TokenView>, LexError>(seq![token]),
{
    assert(char_class(s[0]) == Some(CharClass::Whitespace));
    assert(char_class(s[3]) == Some(CharClass::Whitespace));
    assert(lex_from(s, 4) == Ok::<Seq<TokenView>, LexError>(Seq::empty()));
    assert(lex_from(s, 3) == lex_from(s, 4));
    lemma_word_end(s, 2, 3);
    assert(s.subrange(1, 3) =~= seq![s[1], s[2]]);
    assert(piece_at(s, 1).is_ok());
    assert(seq![token] + Seq::<TokenView>::empty() =~= seq![token]);
    assert(lex_from(s, 1) == Ok::<Seq<TokenView>, LexError>(seq![token]));
    assert(lex_from(s, 0) == lex_from(s, 1));
}

/// `<-` and `->` directly followed by characters that continue a word are
/// one identifier.
pub proof fn law_operators_continued(more: Seq<char>)
    requires
        more.len() > 0,
        forall|i: int| 0 <= i < more.len() ==> continues_word(#[trigger] more[i]),
    ensures
        lex(seq!['<', '-'] + more) == Ok::<Seq<TokenView>, LexError>(
            seq![TokenView::Identifier(seq!['<', '-'] + more)],
        ),
        lex(seq!['-', '>'] + more) == Ok::<Seq<TokenView>, LexError>(
            seq![TokenView::Identifier(seq!['-', '>'] + more)],
        ),
{
    lemma_longer_than_keywords(seq!['<', '-'], more);
    law_keyword_continued(seq!['<', '-'], more);
    lemma_longer_than_keywords(seq!['-', '>'], more);
    law_keyword_continued(seq!['-', '>'], more);
}

/// No reserved spelling begins with `<-` or `->` and goes on.
proof fn lemma_longer_than_keywords(op: Seq<char>, more: Seq<char>)
    requires
        op =~= seq!['<', '-'] || op =~= seq!['-', '>'],
        more.len() > 0,
    ensures
        keyword(op + more) is None,
        keyword(op) is Some,
{
    let s = op + more;
    assert(s.len() >= 3);
    assert(s[0] == op[0]);
    assert(s[1] == op[1]);
}

} // verus!
