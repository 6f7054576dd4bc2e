use crate::lexical::{
    comment_end, continues_word, digits_end, fault, is_digit, lex, lex_from, numeral_piece,
    numeral_value, prepend, word_end, word_token, LexError, LexErrorKind,
};
use crate::token::TokenView;
use crate::tokenizer::{char_class, identifier_char, transition, CharClass, State};
use vstd::prelude::*;

verus! {

/// What a transition of the automaton does to the pending lexeme and to the
/// tokens found so far.
#[derive(Copy, Clone, Debug, PartialEq, Eq, Structural)]
pub enum Action {
    Noop,
    StartLexeme,
    AppendLexeme,
    EmitSemicolon,
    AppendAndMaybeEmitAssign,
    AppendAndMaybeEmitArrow,
    MaybeEmitParenL,
    MaybeEmitParenR,
    ClearParenL,
    EndComment,
}

/// The action of the automaton's table for a state and a class.
pub open spec fn transition_action(current: State, class: CharClass) -> Action {
    match current {
        State::Start => match class {
            CharClass::LParen => Action::MaybeEmitParenL,
            CharClass::RParen => Action::MaybeEmitParenR,
            CharClass::Semicolon => Action::EmitSemicolon,
            CharClass::Whitespace | CharClass::PunctGroup => Action::Noop,
            _ => Action::StartLexeme,
        },
        State::Digit => if class == CharClass::Digit {
            Action::AppendLexeme
        } else {
            Action::Noop
        },
        State::AssignOrIdentifier => if class == CharClass::Minus {
            Action::AppendAndMaybeEmitAssign
        } else if class.continues_word() {
            Action::AppendLexeme
        } else {
            Action::Noop
        },
        State::ArrowOrIdentifierOrNegativeNumber => if class == CharClass::Greater {
            Action::AppendAndMaybeEmitArrow
        } else if class.continues_word() {
            Action::AppendLexeme
        } else {
            Action::Noop
        },
        State::PipeOrIdentifier
        | State::FinishAssignOrIdentifier
        | State::Identifier
        | State::FinishArrowOrIdentifier => if class.continues_word() {
            Action::AppendLexeme
        } else {
            Action::Noop
        },
        State::ParenLOrComment => if class == CharClass::Star {
            Action::ClearParenL
        } else {
            Action::Noop
        },
        State::Comment => Action::Noop,
        State::MayFinishComment => if class == CharClass::RParen {
            Action::EndComment
        } else {
            Action::Noop
        },
        State::ParenR => Action::Noop,
    }
}

/// The pending lexeme and the tokens found so far.
pub ghost struct Buffer {
    pub lexeme: Seq<char>,
    pub tokens: Seq<TokenView>,
}

pub open spec fn appended(b: Buffer, ch: Option<char>) -> Buffer {
    match ch {
        Some(c) => Buffer { lexeme: b.lexeme.push(c), tokens: b.tokens },
        None => b,
    }
}

pub open spec fn emitted(b: Buffer, token: TokenView) -> Buffer {
    Buffer { lexeme: Seq::empty(), tokens: b.tokens.push(token) }
}

pub open spec fn cleared(b: Buffer) -> Buffer {
    Buffer { lexeme: Seq::empty(), tokens: b.tokens }
}

/// Whether the character behind a two-character operator lets the operator
/// stand alone; the end of the text does.
pub open spec fn ends_operator(next: Option<char>) -> bool {
    match next {
        Some(c) => !identifier_char(c),
        None => true,
    }
}

/// The buffer after the operator `token` has been emitted, if the lexeme
/// spells it and `next` lets it stand alone; else the buffer unchanged.
pub open spec fn maybe_emitted(b: Buffer, spelling: Seq<char>, token: TokenView, next: Option<char>) -> Buffer {
    if b.lexeme =~= spelling && ends_operator(next) {
        emitted(b, token)
    } else {
        b
    }
}

/// The buffer after an action, taken on the character `ch` with `next` the
/// character behind it.
pub open spec fn act(action: Action, b: Buffer, ch: Option<char>, next: Option<char>) -> Buffer {
    match action {
        Action::Noop => b,
        Action::StartLexeme | Action::AppendLexeme => appended(b, ch),
        Action::EmitSemicolon => emitted(b, TokenView::Semicolon),
        Action::AppendAndMaybeEmitAssign => maybe_emitted(
            appended(b, ch),
            seq!['<', '-'],
            TokenView::Assign,
            next,
        ),
        Action::AppendAndMaybeEmitArrow => maybe_emitted(
            appended(b, ch),
            seq!['-', '>'],
            TokenView::Arrow,
            next,
        ),
        Action::MaybeEmitParenL => if next != Some('*') {
            emitted(b, TokenView::ParenL)
        } else {
            cleared(b)
        },
        Action::MaybeEmitParenR => emitted(b, TokenView::ParenR),
        Action::ClearParenL | Action::EndComment => cleared(b),
    }
}

/// Whether `text` is a literal: a run of digits, or `-` and a run of digits.
pub open spec fn numeral_text(text: Seq<char>) -> bool {
    &&& text.len() > 0
    &&& (is_digit(text[0]) || (text[0] == '-' && text.len() > 1))
    &&& forall|j: int| 1 <= j < text.len() ==> is_digit(#[trigger] text[j])
}

/// The tokens after the pending lexeme has been turned into its token, in
/// the state in which the automaton stopped.
pub open spec fn finalized(state: State, b: Buffer) -> Result<Seq<TokenView>, LexErrorKind> {
    if b.lexeme.len() == 0 {
        Ok(b.tokens)
    } else if state == State::Digit {
        let v = numeral_value(b.lexeme);
        if i64::MIN <= v <= i64::MAX {
            Ok(b.tokens.push(TokenView::IntegerLiteral(v as i64)))
        } else {
            Err(LexErrorKind::IntegerOverflow)
        }
    } else if state.in_word() {
        Ok(b.tokens.push(word_token(b.lexeme)))
    } else {
        Ok(b.tokens)
    }
}

pub open spec fn all_digits(s: Seq<char>, from: int, to: int) -> bool {
    forall|j: int| from <= j < to ==> is_digit(#[trigger] s[j])
}

pub open spec fn all_word(s: Seq<char>, from: int, to: int) -> bool {
    forall|j: int| from <= j < to ==> continues_word(#[trigger] s[j])
}

/// Whether the piece of `s` that begins at `start` is a word.
pub open spec fn word_begins(s: Seq<char>, start: int) -> bool {
    &&& 0 <= start < s.len()
    &&& match char_class(s[start]) {
        Some(k) => k.continues_word() && k != CharClass::Digit && !(k
            == CharClass::Minus && start + 1 < s.len() && is_digit(s[start + 1])),
        None => false,
    }
}

/// A word began at `start` and the automaton has read it up to `i`.
pub open spec fn word_pending(s: Seq<char>, i: int, lexeme: Seq<char>, start: int) -> bool {
    &&& start < i <= s.len()
    &&& word_begins(s, start)
    &&& all_word(s, start + 1, i)
    &&& lexeme == s.subrange(start, i)
}

/// The piece before `i` is complete and its token, if any, has been emitted.
pub open spec fn nothing_pending(i: int, lexeme: Seq<char>, start: int) -> bool {
    start == i && lexeme.len() == 0
}

/// What the automaton's state says of the piece that began at `start`, when
/// the characters before `i` have been read.
pub open spec fn pending(s: Seq<char>, i: int, state: State, lexeme: Seq<char>, start: int) -> bool {
    &&& 0 <= start <= i <= s.len()
    &&& match state {
        State::Start | State::ParenR => nothing_pending(i, lexeme, start),
        State::Digit => {
            &&& start < i
            &&& lexeme == s.subrange(start, i)
            &&& ((is_digit(s[start]) && all_digits(s, start, i)) || (s[start] == '-' && start + 1
                < i && all_digits(s, start + 1, i)))
        },
        State::PipeOrIdentifier | State::Identifier => word_pending(s, i, lexeme, start),
        State::AssignOrIdentifier => word_pending(s, i, lexeme, start) && i == start + 1
            && s[start] == '<',
        State::ArrowOrIdentifierOrNegativeNumber => {
            &&& i == start + 1
            &&& s[start] == '-'
            &&& lexeme == s.subrange(start, i)
        },
        State::FinishAssignOrIdentifier | State::FinishArrowOrIdentifier => {
            ||| word_pending(s, i, lexeme, start)
            ||| (nothing_pending(i, lexeme, start) && (i < s.len() ==> !identifier_char(s[i])))
        },
        State::ParenLOrComment => {
            ||| (i == start + 1 && s[start] == '(' && i < s.len() && s[i] == '*' && lexeme.len()
                == 0)
            ||| (nothing_pending(i, lexeme, start) && (i < s.len() ==> s[i] != '*'))
        },
        State::Comment => {
            &&& start + 2 <= i
            &&& s[start] == '('
            &&& s[start + 1] == '*'
            &&& lexeme.len() == 0
            &&& comment_end(s, start + 2) == comment_end(s, i)
        },
        State::MayFinishComment => {
            &&& start + 3 <= i
            &&& s[start] == '('
            &&& s[start + 1] == '*'
            &&& lexeme.len() == 0
            &&& s[i - 1] == '*'
            &&& comment_end(s, start + 2) == comment_end(s, i - 1)
        },
    }
}

/// The invariant of the automaton's run over `s`: the tokens of `s` are those
/// found so far, then those of `s` from `start` on.
pub open spec fn scanning(s: Seq<char>, i: int, state: State, b: Buffer, start: int) -> bool {
    &&& pending(s, i, state, b.lexeme, start)
    &&& lex(s) == prepend(b.tokens, lex_from(s, start))
}

pub proof fn lemma_prepend_nothing(rest: Result<Seq<TokenView>, LexError>)
    ensures
        prepend(Seq::empty(), rest) == rest,
{
    match rest {
        Ok(more) => {
            assert(Seq::<TokenView>::empty() + more =~= more);
        },
        Err(_) => {},
    }
}

pub proof fn lemma_prepend_push(tokens: Seq<TokenView>, t: TokenView, rest: Result<Seq<TokenView>, LexError>)
    ensures
        prepend(tokens, prepend(seq![t], rest)) == prepend(tokens.push(t), rest),
{
    match rest {
        Ok(more) => {
            assert(tokens + (seq![t] + more) =~= tokens.push(t) + more);
        },
        Err(_) => {},
    }
}

pub proof fn lemma_word_end(s: Seq<char>, from: int, to: int)
    requires
        0 <= from <= to <= s.len(),
        all_word(s, from, to),
        to < s.len() ==> !continues_word(s[to]),
    ensures
        word_end(s, from) == to,
    decreases to - from,
{
    if from < to {
        lemma_word_end(s, from + 1, to);
    }
}

pub proof fn lemma_digits_end(s: Seq<char>, from: int, to: int)
    requires
        0 <= from <= to <= s.len(),
        all_digits(s, from, to),
        to < s.len() ==> !is_digit(s[to]),
    ensures
        digits_end(s, from) == to,
    decreases to - from,
{
    if from < to {
        lemma_digits_end(s, from + 1, to);
    }
}

/// The piece that a pending word makes when the automaton stops at `i`.
pub proof fn lemma_word_piece(s: Seq<char>, i: int, lexeme: Seq<char>, start: int)
    requires
        word_pending(s, i, lexeme, start),
        i < s.len() ==> !continues_word(s[i]),
    ensures
        lex_from(s, start) == prepend(seq![word_token(lexeme)], lex_from(s, i)),
{
    lemma_word_end(s, start + 1, i);
}

/// Where the digits of the literal begin that begins at `start`.
pub open spec fn digits_start(s: Seq<char>, start: int) -> int {
    if is_digit(s[start]) {
        start
    } else {
        start + 1
    }
}

/// The piece that a pending literal makes when the automaton stops at `i`.
pub proof fn lemma_numeral_piece(s: Seq<char>, i: int, lexeme: Seq<char>, start: int)
    requires
        pending(s, i, State::Digit, lexeme, start),
        i < s.len() ==> !is_digit(s[i]),
    ensures
        lex_from(s, start) == (match numeral_piece(s, start, digits_start(s, start)) {
            Err(e) => Err(e),
            Ok(p) => prepend(seq![p.token->0], lex_from(s, p.end)),
        }),
        digits_end(s, digits_start(s, start)) == i,
        numeral_text(lexeme),
{
    lemma_digits_end(s, digits_start(s, start), i);
}

/// The character of `s` at `i`, if there is one.
pub open spec fn peek(s: Seq<char>, i: int) -> Option<char> {
    if 0 <= i < s.len() {
        Some(s[i])
    } else {
        None
    }
}

/// What a transition of the automaton needs.
pub open spec fn steps(s: Seq<char>, i: int, state: State, b: Buffer, start: int) -> bool {
    &&& scanning(s, i, state, b, start)
    &&& i < s.len()
    &&& char_class(s[i]) is Some
    &&& transition(state, char_class(s[i])->0) matches Ok(Some(_))
}

/// The invariant after a transition of the automaton, with the pending piece
/// beginning at `next_start`.
pub open spec fn stepped(s: Seq<char>, i: int, state: State, b: Buffer, next_start: int) -> bool {
    scanning(
        s,
        i + 1,
        transition(state, char_class(s[i])->0)->Ok_0->0,
        act(transition_action(state, char_class(s[i])->0), b, Some(s[i]), peek(s, i + 1)),
        next_start,
    )
}

proof fn lemma_step_start(s: Seq<char>, i: int, state: State, b: Buffer, start: int) -> (next_start: int)
    requires
        steps(s, i, state, b, start),
        state == State::Start,
    ensures
        stepped(s, i, state, b, next_start),
{
    let c = s[i];
    let k = char_class(c)->0;
    let next = peek(s, i + 1);
    assert(b.lexeme =~= Seq::<char>::empty());
    assert(b.lexeme.push(c) =~= s.subrange(i, i + 1));
    match k {
        CharClass::LParen => {
            if next != Some('*') {
                lemma_prepend_push(b.tokens, TokenView::ParenL, lex_from(s, i + 1));
                i + 1
            } else {
                i
            }
        },
        CharClass::RParen => {
            lemma_prepend_push(b.tokens, TokenView::ParenR, lex_from(s, i + 1));
            i + 1
        },
        CharClass::Semicolon => {
            lemma_prepend_push(b.tokens, TokenView::Semicolon, lex_from(s, i + 1));
            i + 1
        },
        CharClass::Whitespace => i + 1,
        _ => i,
    }
}

proof fn lemma_step_append(s: Seq<char>, i: int, state: State, b: Buffer, start: int)
    requires
        steps(s, i, state, b, start),
        matches!(
            state,
            State::Digit | State::PipeOrIdentifier | State::Identifier
                | State::FinishAssignOrIdentifier | State::FinishArrowOrIdentifier
        ),
    ensures
        stepped(s, i, state, b, start),
{
    assert(s.subrange(start, i).push(s[i]) =~= s.subrange(start, i + 1));
}

proof fn lemma_step_operator(s: Seq<char>, i: int, state: State, b: Buffer, start: int) -> (next_start: int)
    requires
        steps(s, i, state, b, start),
        state == State::AssignOrIdentifier || state == State::ArrowOrIdentifierOrNegativeNumber,
    ensures
        stepped(s, i, state, b, next_start),
{
    let k = char_class(s[i])->0;
    assert(s.subrange(start, i).push(s[i]) =~= s.subrange(start, i + 1));
    if state == State::AssignOrIdentifier && k == CharClass::Minus && ends_operator(peek(s, i + 1)) {
        lemma_fused(s, i, b, start, TokenView::Assign);
        i + 1
    } else if state == State::ArrowOrIdentifierOrNegativeNumber && k == CharClass::Greater
        && ends_operator(peek(s, i + 1)) {
        lemma_fused(s, i, b, start, TokenView::Arrow);
        i + 1
    } else {
        if state == State::AssignOrIdentifier && k == CharClass::Minus {
            assert(b.lexeme.push(s[i]) =~= seq!['<', '-']);
        }
        if state == State::ArrowOrIdentifierOrNegativeNumber && k == CharClass::Greater {
            assert(b.lexeme.push(s[i]) =~= seq!['-', '>']);
        }
        start
    }
}

proof fn lemma_step_comment(s: Seq<char>, i: int, state: State, b: Buffer, start: int) -> (next_start: int)
    requires
        steps(s, i, state, b, start),
        state == State::ParenLOrComment || state.in_comment(),
    ensures
        stepped(s, i, state, b, next_start),
{
    let k = char_class(s[i])->0;
    if state == State::MayFinishComment && k == CharClass::RParen {
        i + 1
    } else {
        start
    }
}

/// A transition of the automaton keeps the invariant: the result is where
/// the pending piece begins after it.
pub proof fn lemma_step(s: Seq<char>, i: int, state: State, b: Buffer, start: int) -> (next_start: int)
    requires
        steps(s, i, state, b, start),
    ensures
        stepped(s, i, state, b, next_start),
{
    match state {
        State::Start => lemma_step_start(s, i, state, b, start),
        State::AssignOrIdentifier | State::ArrowOrIdentifierOrNegativeNumber => lemma_step_operator(
            s,
            i,
            state,
            b,
            start,
        ),
        State::ParenLOrComment | State::Comment | State::MayFinishComment => lemma_step_comment(
            s,
            i,
            state,
            b,
            start,
        ),
        State::ParenR => start,
        _ => {
            lemma_step_append(s, i, state, b, start);
            start
        },
    }
}

/// A two-character operator that the character behind it lets stand alone is
/// the whole piece.
proof fn lemma_fused(s: Seq<char>, i: int, b: Buffer, start: int, token: TokenView)
    requires
        0 <= start,
        i == start + 1,
        i < s.len(),
        b.lexeme == s.subrange(start, i),
        ends_operator(peek(s, i + 1)),
        (s[start] == '<' && s[i] == '-' && token == TokenView::Assign) || (s[start] == '-' && s[i]
            == '>' && token == TokenView::Arrow),
        lex(s) == prepend(b.tokens, lex_from(s, start)),
    ensures
        lex(s) == prepend(b.tokens.push(token), lex_from(s, i + 1)),
        b.lexeme.push(s[i]) =~= seq![s[start], s[i]],
        word_token(seq![s[start], s[i]]) == token,
{
    lemma_word_end(s, start + 1, i + 1);
    assert(s.subrange(start, i + 1) =~= seq![s[start], s[i]]);
    lemma_prepend_push(b.tokens, token, lex_from(s, i + 1));
}

/// Where the automaton stops in front of a character, or at the end of the
/// text outside a comment, the pending lexeme is a whole piece.
pub proof fn lemma_flush(s: Seq<char>, i: int, state: State, b: Buffer, start: int)
    requires
        scanning(s, i, state, b, start),
        !state.in_comment(),
        state == State::Start ==> i == s.len(),
        i < s.len() ==> char_class(s[i]) is Some && transition(state, char_class(s[i])->0) == Ok::<
            Option<State>,
            LexErrorKind,
        >(None),
    ensures
        match finalized(state, b) {
            Ok(tokens) => scanning(s, i, State::Start, Buffer { lexeme: Seq::empty(), tokens }, i),
            Err(kind) => lex(s) == Err::<Seq<TokenView>, LexError>(fault(s, kind, i)),
        },
        state == State::Digit && b.lexeme.len() > 0 ==> numeral_text(b.lexeme),
{
    if b.lexeme.len() > 0 {
        if state == State::Digit {
            lemma_numeral_piece(s, i, b.lexeme, start);
            let v = numeral_value(b.lexeme);
            if i64::MIN <= v <= i64::MAX {
                lemma_prepend_push(b.tokens, TokenView::IntegerLiteral(v as i64), lex_from(s, i));
            }
        } else if state.in_word() {
            lemma_word_piece(s, i, b.lexeme, start);
            lemma_prepend_push(b.tokens, word_token(b.lexeme), lex_from(s, i));
        }
    }
}

/// A character that the automaton cannot take is the first fault of the text.
pub proof fn lemma_unexpected(s: Seq<char>, i: int, state: State, b: Buffer, start: int)
    requires
        scanning(s, i, state, b, start),
        i < s.len(),
        char_class(s[i]) is None || (state == State::Start && char_class(s[i]) == Some(
            CharClass::PunctGroup,
        )),
    ensures
        lex(s) == Err::<Seq<TokenView>, LexError>(fault(s, LexErrorKind::UnexpectedChar, i)),
{
    if b.lexeme.len() > 0 {
        if state == State::Digit {
            lemma_numeral_piece(s, i, b.lexeme, start);
        } else if state.in_word() {
            lemma_word_piece(s, i, b.lexeme, start);
        }
    }
}

/// A letter or an operator character behind a digit of a literal is the
/// first fault of the text.
pub proof fn lemma_after_digit(s: Seq<char>, i: int, state: State, b: Buffer, start: int)
    requires
        scanning(s, i, state, b, start),
        i < s.len(),
        char_class(s[i]) is Some,
        transition(state, char_class(s[i])->0) is Err,
    ensures
        transition(state, char_class(s[i])->0) == Err::<Option<State>, LexErrorKind>(
            LexErrorKind::InvalidAfterDigit,
        ),
        lex(s) == Err::<Seq<TokenView>, LexError>(fault(s, LexErrorKind::InvalidAfterDigit, i)),
{
    lemma_numeral_piece(s, i, b.lexeme, start);
}

/// The end of the text inside a comment is the first fault of the text.
pub proof fn lemma_unterminated(s: Seq<char>, state: State, b: Buffer, start: int)
    requires
        scanning(s, s.len() as int, state, b, start),
        state.in_comment(),
    ensures
        lex(s) == Err::<Seq<TokenView>, LexError>(
            fault(s, LexErrorKind::UnterminatedComment, s.len() as int),
        ),
{
}

/// At the end of the text, with nothing pending, the tokens found are the
/// tokens of the text.
pub proof fn lemma_done(s: Seq<char>, b: Buffer)
    requires
        scanning(s, s.len() as int, State::Start, b, s.len() as int),
    ensures
        lex(s) == Ok::<Seq<TokenView>, LexError>(b.tokens),
{
    assert(b.tokens + Seq::<TokenView>::empty() =~= b.tokens);
}

} // verus!
