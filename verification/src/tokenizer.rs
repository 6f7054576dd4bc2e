use crate::lexical::{
    clamp, column_of, decimal_value, is_digit, is_whitespace_char, keyword, lex, line_of,
    numeral_value, LexError, LexErrorKind,
};
use crate::scan::{
    act, finalized, lemma_after_digit, lemma_done, lemma_flush, lemma_prepend_nothing, lemma_step,
    lemma_unexpected, lemma_unterminated, maybe_emitted, numeral_text, peek, scanning,
    transition_action, Action, Buffer,
};
use crate::text::{chars_of, string_of};
use crate::token::{lemma_token_views_push, token_views, Token, TokenView};
use vstd::prelude::*;

verus! {

/// The states of the lexical automaton.
#[derive(Copy, Clone, Debug, PartialEq, Eq, Structural)]
pub enum State {
    /// Between lexemes.
    Start,
    /// Inside a run of digits, after an optional leading minus sign.
    Digit,
    /// After a `|` that began a lexeme.
    PipeOrIdentifier,
    /// After a `<` that began a lexeme.
    AssignOrIdentifier,
    /// After `<-`.
    FinishAssignOrIdentifier,
    /// Inside a word.
    Identifier,
    /// After a `-` that began a lexeme.
    ArrowOrIdentifierOrNegativeNumber,
    /// After `->`.
    FinishArrowOrIdentifier,
    /// After `(`.
    ParenLOrComment,
    /// Inside a comment.
    Comment,
    /// Inside a comment, after a `*`.
    MayFinishComment,
    /// After `)`.
    ParenR,
}

impl State {
    /// The number of states.
    pub const COUNT: usize = 12;

    /// The position of a state in the automaton's table.
    pub open spec fn index(self) -> nat {
        match self {
            State::Start => 0,
            State::Digit => 1,
            State::PipeOrIdentifier => 2,
            State::AssignOrIdentifier => 3,
            State::FinishAssignOrIdentifier => 4,
            State::Identifier => 5,
            State::ArrowOrIdentifierOrNegativeNumber => 6,
            State::FinishArrowOrIdentifier => 7,
            State::ParenLOrComment => 8,
            State::Comment => 9,
            State::MayFinishComment => 10,
            State::ParenR => 11,
        }
    }

    /// The state at a position of the table, if there is one.
    pub fn from_index(index: usize) -> (r: Option<State>)
        ensures
            match r {
                Some(s) => s.index() == index,
                None => index >= State::COUNT,
            },
    {
        match index {
            0 => Some(State::Start),
            1 => Some(State::Digit),
            2 => Some(State::PipeOrIdentifier),
            3 => Some(State::AssignOrIdentifier),
            4 => Some(State::FinishAssignOrIdentifier),
            5 => Some(State::Identifier),
            6 => Some(State::ArrowOrIdentifierOrNegativeNumber),
            7 => Some(State::FinishArrowOrIdentifier),
            8 => Some(State::ParenLOrComment),
            9 => Some(State::Comment),
            10 => Some(State::MayFinishComment),
            11 => Some(State::ParenR),
            _ => None,
        }
    }

    /// Whether a lexeme of a word may be pending in this state.
    pub open spec fn in_word(self) -> bool {
        matches!(
            self,
            State::PipeOrIdentifier | State::AssignOrIdentifier | State::FinishAssignOrIdentifier
                | State::Identifier | State::ArrowOrIdentifierOrNegativeNumber
                | State::FinishArrowOrIdentifier
        )
    }

    /// Whether the automaton is inside a comment in this state.
    pub open spec fn in_comment(self) -> bool {
        matches!(self, State::Comment | State::MayFinishComment)
    }
}

/// The classes into which the automaton partitions characters.
#[derive(Copy, Clone, Debug, PartialEq, Eq, Hash, Structural)]
pub enum CharClass {
    Digit,
    LowerAlpha,
    UpperAlpha,
    Less,
    Greater,
    Minus,
    Plus,
    Star,
    Slash,
    Equals,
    Exclam,
    Percent,
    Caret,
    Underscore,
    Pipe,
    LParen,
    RParen,
    Semicolon,
    Whitespace,
    PunctGroup,
    Ampersand,
}

impl CharClass {
    /// The number of classes.
    pub const COUNT: usize = 21;

    /// Whether a character of this class extends a word that has begun:
    /// every class but parentheses, `;`, white space and reserved
    /// punctuation.
    pub open spec fn continues_word(self) -> bool {
        !matches!(
            self,
            CharClass::LParen | CharClass::RParen | CharClass::Semicolon | CharClass::Whitespace
                | CharClass::PunctGroup
        )
    }

    /// Whether a character of this class ends a run of digits without fault:
    /// what ends a word, and `|`.
    pub open spec fn ends_number(self) -> bool {
        matches!(
            self,
            CharClass::Pipe | CharClass::LParen | CharClass::RParen | CharClass::Semicolon
                | CharClass::Whitespace | CharClass::PunctGroup
        )
    }
}

/// The class of a character; `None` for a character outside every class.
pub open spec fn char_class(c: char) -> Option<CharClass> {
    if '0' <= c && c <= '9' {
        Some(CharClass::Digit)
    } else if ('a' <= c && c <= 'z') || ('\u{df}' <= c && c <= '\u{f6}') || ('\u{f8}' <= c && c
        <= '\u{ff}') {
        Some(CharClass::LowerAlpha)
    } else if ('A' <= c && c <= 'Z') || ('\u{c0}' <= c && c <= '\u{d6}') || ('\u{d8}' <= c && c
        <= '\u{de}') {
        Some(CharClass::UpperAlpha)
    } else if c == '<' {
        Some(CharClass::Less)
    } else if c == '>' {
        Some(CharClass::Greater)
    } else if c == '-' {
        Some(CharClass::Minus)
    } else if c == '+' {
        Some(CharClass::Plus)
    } else if c == '*' {
        Some(CharClass::Star)
    } else if c == '/' {
        Some(CharClass::Slash)
    } else if c == '=' {
        Some(CharClass::Equals)
    } else if c == '!' {
        Some(CharClass::Exclam)
    } else if c == '%' {
        Some(CharClass::Percent)
    } else if c == '^' {
        Some(CharClass::Caret)
    } else if c == '_' {
        Some(CharClass::Underscore)
    } else if c == '&' {
        Some(CharClass::Ampersand)
    } else if c == '|' {
        Some(CharClass::Pipe)
    } else if c == '(' {
        Some(CharClass::LParen)
    } else if c == ')' {
        Some(CharClass::RParen)
    } else if c == ';' {
        Some(CharClass::Semicolon)
    } else if c == '{' || c == '}' || c == '[' || c == ']' || c == '.' || c == ':' {
        Some(CharClass::PunctGroup)
    } else if is_whitespace_char(c) {
        Some(CharClass::Whitespace)
    } else {
        None
    }
}

/// Whether a character may stand in an identifier: a digit, a letter, `_` or
/// one of the operator characters `< > - + * / = ! % ^ & |`.
pub open spec fn identifier_char(c: char) -> bool {
    match char_class(c) {
        Some(k) => k.continues_word(),
        None => false,
    }
}

fn is_whitespace(c: char) -> (r: bool)
    ensures
        r == is_whitespace_char(c),
{
    ('\u{9}' <= c && c <= '\u{d}') || c == ' ' || c == '\u{85}' || c == '\u{a0}' || c == '\u{1680}'
        || ('\u{2000}' <= c && c <= '\u{200a}') || c == '\u{2028}' || c == '\u{2029}' || c
        == '\u{202f}' || c == '\u{205f}' || c == '\u{3000}'
}

/// Classifies a character.
pub fn classify_char(c: char) -> (r: Option<CharClass>)
    ensures
        r == char_class(c),
{
    match c {
        '0'..='9' => Some(CharClass::Digit),
        'a'..='z' | '\u{00DF}'..='\u{00F6}' | '\u{00F8}'..='\u{00FF}' => Some(CharClass::LowerAlpha),
        'A'..='Z' | '\u{00C0}'..='\u{00D6}' | '\u{00D8}'..='\u{00DE}' => Some(CharClass::UpperAlpha),
        '<' => Some(CharClass::Less),
        '>' => Some(CharClass::Greater),
        '-' => Some(CharClass::Minus),
        '+' => Some(CharClass::Plus),
        '*' => Some(CharClass::Star),
        '/' => Some(CharClass::Slash),
        '=' => Some(CharClass::Equals),
        '!' => Some(CharClass::Exclam),
        '%' => Some(CharClass::Percent),
        '^' => Some(CharClass::Caret),
        '_' => Some(CharClass::Underscore),
        '&' => Some(CharClass::Ampersand),
        '|' => Some(CharClass::Pipe),
        '(' => Some(CharClass::LParen),
        ')' => Some(CharClass::RParen),
        ';' => Some(CharClass::Semicolon),
        '{' | '}' | '[' | ']' | '.' | ':' => Some(CharClass::PunctGroup),
        _ => if is_whitespace(c) {
            Some(CharClass::Whitespace)
        } else {
            None
        },
    }
}

/// Whether a character may stand in an identifier.
pub fn is_identifier_char(c: char) -> (r: bool)
    ensures
        r == identifier_char(c),
{
    match classify_char(c) {
        Some(
            CharClass::LParen
            | CharClass::RParen
            | CharClass::Semicolon
            | CharClass::Whitespace
            | CharClass::PunctGroup,
        ) => false,
        Some(_) => true,
        None => false,
    }
}

/// The cell of the automaton's table for a state and a class: `Ok(Some(s))`
/// to consume the character and move to `s`, `Ok(None)` where the character
/// ends the pending lexeme and is read again from `Start`, and an error where
/// the character may not follow a digit.
pub open spec fn transition(current: State, class: CharClass) -> Result<Option<State>, LexErrorKind> {
    match current {
        State::Start => match class {
            CharClass::Digit => Ok(Some(State::Digit)),
            CharClass::Less => Ok(Some(State::AssignOrIdentifier)),
            CharClass::Minus => Ok(Some(State::ArrowOrIdentifierOrNegativeNumber)),
            CharClass::Pipe => Ok(Some(State::PipeOrIdentifier)),
            CharClass::LParen => Ok(Some(State::ParenLOrComment)),
            CharClass::RParen => Ok(Some(State::ParenR)),
            CharClass::Semicolon | CharClass::Whitespace => Ok(Some(State::Start)),
            CharClass::PunctGroup => Ok(None),
            _ => Ok(Some(State::Identifier)),
        },
        State::Digit => if class == CharClass::Digit {
            Ok(Some(State::Digit))
        } else if class.ends_number() {
            Ok(None)
        } else {
            Err(LexErrorKind::InvalidAfterDigit)
        },
        State::AssignOrIdentifier => if class == CharClass::Minus {
            Ok(Some(State::FinishAssignOrIdentifier))
        } else if class.continues_word() {
            Ok(Some(State::Identifier))
        } else {
            Ok(None)
        },
        State::ArrowOrIdentifierOrNegativeNumber => if class == CharClass::Digit {
            Ok(Some(State::Digit))
        } else if class == CharClass::Greater {
            Ok(Some(State::FinishArrowOrIdentifier))
        } else if class.continues_word() {
            Ok(Some(State::Identifier))
        } else {
            Ok(None)
        },
        State::PipeOrIdentifier
        | State::FinishAssignOrIdentifier
        | State::Identifier
        | State::FinishArrowOrIdentifier => if class.continues_word() {
            Ok(Some(State::Identifier))
        } else {
            Ok(None)
        },
        State::ParenLOrComment => if class == CharClass::Star {
            Ok(Some(State::Comment))
        } else {
            Ok(None)
        },
        State::Comment => if class == CharClass::Star {
            Ok(Some(State::MayFinishComment))
        } else {
            Ok(Some(State::Comment))
        },
        State::MayFinishComment => if class == CharClass::Star {
            Ok(Some(State::MayFinishComment))
        } else if class == CharClass::RParen {
            Ok(Some(State::Start))
        } else {
            Ok(Some(State::Comment))
        },
        State::ParenR => Ok(None),
    }
}

fn class_continues_word(class: CharClass) -> (r: bool)
    ensures
        r == class.continues_word(),
{
    !matches!(
        class,
        CharClass::LParen | CharClass::RParen | CharClass::Semicolon | CharClass::Whitespace
            | CharClass::PunctGroup
    )
}

fn class_ends_number(class: CharClass) -> (r: bool)
    ensures
        r == class.ends_number(),
{
    matches!(
        class,
        CharClass::Pipe | CharClass::LParen | CharClass::RParen | CharClass::Semicolon
            | CharClass::Whitespace | CharClass::PunctGroup
    )
}

/// Looks up the automaton's table.
pub fn next_state(current: State, class: CharClass) -> (r: Result<Option<State>, LexErrorKind>)
    ensures
        r == transition(current, class),
{
    let continues = class_continues_word(class);
    match current {
        State::Start => match class {
            CharClass::Digit => Ok(Some(State::Digit)),
            CharClass::Less => Ok(Some(State::AssignOrIdentifier)),
            CharClass::Minus => Ok(Some(State::ArrowOrIdentifierOrNegativeNumber)),
            CharClass::Pipe => Ok(Some(State::PipeOrIdentifier)),
            CharClass::LParen => Ok(Some(State::ParenLOrComment)),
            CharClass::RParen => Ok(Some(State::ParenR)),
            CharClass::Semicolon | CharClass::Whitespace => Ok(Some(State::Start)),
            CharClass::PunctGroup => Ok(None),
            _ => Ok(Some(State::Identifier)),
        },
        State::Digit => match class {
            CharClass::Digit => Ok(Some(State::Digit)),
            _ => if class_ends_number(class) {
                Ok(None)
            } else {
                Err(LexErrorKind::InvalidAfterDigit)
            },
        },
        State::AssignOrIdentifier => match class {
            CharClass::Minus => Ok(Some(State::FinishAssignOrIdentifier)),
            _ => if continues {
                Ok(Some(State::Identifier))
            } else {
                Ok(None)
            },
        },
        State::ArrowOrIdentifierOrNegativeNumber => match class {
            CharClass::Digit => Ok(Some(State::Digit)),
            CharClass::Greater => Ok(Some(State::FinishArrowOrIdentifier)),
            _ => if continues {
                Ok(Some(State::Identifier))
            } else {
                Ok(None)
            },
        },
        State::PipeOrIdentifier
        | State::FinishAssignOrIdentifier
        | State::Identifier
        | State::FinishArrowOrIdentifier => if continues {
            Ok(Some(State::Identifier))
        } else {
            Ok(None)
        },
        State::ParenLOrComment => match class {
            CharClass::Star => Ok(Some(State::Comment)),
            _ => Ok(None),
        },
        State::Comment => match class {
            CharClass::Star => Ok(Some(State::MayFinishComment)),
            _ => Ok(Some(State::Comment)),
        },
        State::MayFinishComment => match class {
            CharClass::Star => Ok(Some(State::MayFinishComment)),
            CharClass::RParen => Ok(Some(State::Start)),
            _ => Ok(Some(State::Comment)),
        },
        State::ParenR => Ok(None),
    }
}

/// Looks up the action of the automaton's table.
fn action_for(current: State, class: CharClass) -> (r: Action)
    ensures
        r == transition_action(current, class),
{
    let continues = class_continues_word(class);
    match current {
        State::Start => match class {
            CharClass::LParen => Action::MaybeEmitParenL,
            CharClass::RParen => Action::MaybeEmitParenR,
            CharClass::Semicolon => Action::EmitSemicolon,
            CharClass::Whitespace | CharClass::PunctGroup => Action::Noop,
            _ => Action::StartLexeme,
        },
        State::Digit => match class {
            CharClass::Digit => Action::AppendLexeme,
            _ => Action::Noop,
        },
        State::AssignOrIdentifier => match class {
            CharClass::Minus => Action::AppendAndMaybeEmitAssign,
            _ => if continues {
                Action::AppendLexeme
            } else {
                Action::Noop
            },
        },
        State::ArrowOrIdentifierOrNegativeNumber => match class {
            CharClass::Greater => Action::AppendAndMaybeEmitArrow,
            _ => if continues {
                Action::AppendLexeme
            } else {
                Action::Noop
            },
        },
        State::PipeOrIdentifier
        | State::FinishAssignOrIdentifier
        | State::Identifier
        | State::FinishArrowOrIdentifier => if continues {
            Action::AppendLexeme
        } else {
            Action::Noop
        },
        State::ParenLOrComment => match class {
            CharClass::Star => Action::ClearParenL,
            _ => Action::Noop,
        },
        State::Comment => Action::Noop,
        State::MayFinishComment => match class {
            CharClass::RParen => Action::EndComment,
            _ => Action::Noop,
        },
        State::ParenR => Action::Noop,
    }
}

/// The token that a spelling is reserved for, if any.
fn keyword_token(lexeme: &Vec<char>) -> (r: Option<Token>)
    ensures
        match r {
            Some(t) => keyword(lexeme@) == Some(t@),
            None => keyword(lexeme@) is None,
        },
{
    let n = lexeme.len();
    if n == 1 {
        match lexeme[0] {
            '<' => Some(Token::Less),
            '>' => Some(Token::Greater),
            '=' => Some(Token::Equals),
            '+' => Some(Token::Plus),
            '-' => Some(Token::Minus),
            '*' => Some(Token::Star),
            '/' => Some(Token::Slash),
            '%' => Some(Token::Percent),
            '|' => Some(Token::Pipe),
            '_' => Some(Token::Underscore),
            _ => None,
        }
    } else if n == 2 {
        let a = lexeme[0];
        let b = lexeme[1];
        if a == 'd' && b == 'o' {
            Some(Token::Do)
        } else if a == 'i' && b == 'n' {
            Some(Token::In)
        } else if a == '!' && b == '=' {
            Some(Token::NotEquals)
        } else if a == '-' && b == '>' {
            Some(Token::Arrow)
        } else if a == '<' && b == '-' {
            Some(Token::Assign)
        } else {
            None
        }
    } else if n == 4 {
        let a = lexeme[0];
        let b = lexeme[1];
        let c = lexeme[2];
        let d = lexeme[3];
        if a == 'd' && b == 'e' && c == 'c' && d == 'l' {
            Some(Token::Decl)
        } else if a == 'd' && b == 'o' && c == 'n' && d == 'e' {
            Some(Token::Done)
        } else if a == 'w' && b == 'i' && c == 't' && d == 'h' {
            Some(Token::With)
        } else {
            None
        }
    } else if n == 5 {
        let a = lexeme[0];
        let b = lexeme[1];
        let c = lexeme[2];
        let d = lexeme[3];
        let e = lexeme[4];
        if a == 'w' && b == 'h' && c == 'i' && d == 'l' && e == 'e' {
            Some(Token::While)
        } else if a == 'm' && b == 'a' && c == 't' && d == 'c' && e == 'h' {
            Some(Token::Match)
        } else if a == 'p' && b == 'r' && c == 'i' && d == 'n' && e == 't' {
            Some(Token::Print)
        } else {
            None
        }
    } else {
        None
    }
}

/// A run of digits denotes at least what each of its beginnings denotes.
proof fn lemma_decimal_value_grows(digits: Seq<char>, k: int)
    requires
        0 <= k <= digits.len(),
        forall|j: int| 0 <= j < digits.len() ==> is_digit(#[trigger] digits[j]),
    ensures
        0 <= decimal_value(digits.take(k)) <= decimal_value(digits),
    decreases digits.len() - k,
{
    if k == digits.len() {
        assert(digits.take(k) =~= digits);
        lemma_decimal_value_nonnegative(digits);
    } else {
        lemma_decimal_value_grows(digits, k + 1);
        assert(digits.take(k + 1).drop_last() =~= digits.take(k));
    }
}

pub proof fn lemma_decimal_value_nonnegative(digits: Seq<char>)
    requires
        forall|j: int| 0 <= j < digits.len() ==> is_digit(#[trigger] digits[j]),
    ensures
        0 <= decimal_value(digits),
    decreases digits.len(),
{
    if digits.len() > 0 {
        lemma_decimal_value_nonnegative(digits.drop_last());
    }
}

/// The digit that a character of `0` to `9` stands for.
fn digit_value(c: char) -> (d: i64)
    requires
        is_digit(c),
    ensures
        d == c as int - '0' as int,
        0 <= d <= 9,
{
    (c as u32 - '0' as u32) as i64
}

/// The value of a literal, unless it is outside the range of `i64`.
fn parse_integer(text: &Vec<char>) -> (r: Option<i64>)
    requires
        numeral_text(text@),
    ensures
        match r {
            Some(n) => n == numeral_value(text@),
            None => numeral_value(text@) < i64::MIN || numeral_value(text@) > i64::MAX,
        },
{
    let negative = text[0] == '-';
    let first: usize = if negative {
        1
    } else {
        0
    };
    let ghost digits = text@.subrange(first as int, text@.len() as int);
    proof {
        if negative {
            assert(text@.skip(1) =~= digits);
        } else {
            assert(text@ =~= digits);
        }
        assert(digits.take(0) =~= Seq::<char>::empty());
    }
    // The digits read so far, negated: the negative numbers reach one further.
    let mut acc: i64 = 0;
    let mut k: usize = first;
    while k < text.len()
        invariant
            first <= k <= text.len(),
            first <= 1,
            digits == text@.subrange(first as int, text@.len() as int),
            forall|j: int| 0 <= j < digits.len() ==> is_digit(#[trigger] digits[j]),
            numeral_value(text@) == (if negative {
                -decimal_value(digits)
            } else {
                decimal_value(digits)
            }),
            acc == -decimal_value(digits.take(k - first)),
            acc <= 0,
        decreases text.len() - k,
    {
        assert(is_digit(digits[k - first]));
        let d = digit_value(text[k]);
        proof {
            assert(digits.take(k + 1 - first).drop_last() =~= digits.take(k - first));
            assert(decimal_value(digits.take(k + 1 - first)) == decimal_value(
                digits.take(k - first),
            ) * 10 + d);
            lemma_decimal_value_grows(digits, k + 1 - first);
        }
        if acc < -922337203685477580i64 {
            return None;
        }
        let tens: i64 = acc * 10;
        if tens < i64::MIN + d {
            return None;
        }
        acc = tens - d;
        k += 1;
    }
    proof {
        assert(digits.take(k - first) =~= digits);
    }
    if negative {
        Some(acc)
    } else if acc == i64::MIN {
        None
    } else {
        Some(-acc)
    }
}

/// The next machine integer, or the greatest.
fn saturating_next(n: usize) -> (r: usize)
    ensures
        r == clamp(n + 1),
{
    if n < usize::MAX {
        n + 1
    } else {
        n
    }
}

proof fn lemma_position_positive(s: Seq<char>, pos: int)
    ensures
        line_of(s, pos) >= 1,
        column_of(s, pos) >= 1,
    decreases pos,
{
    if pos > 0 {
        lemma_position_positive(s, pos - 1);
    }
}

/// The lexical analyser of one text.
#[derive(Debug)]
pub struct Lexer {
    input: String,
    position: usize,
    line: usize,
    column: usize,
    current_lexeme: Vec<char>,
    tokens: Vec<Token>,
}

impl Lexer {
    /// The text that the lexer reads.
    pub closed spec fn source(&self) -> Seq<char> {
        self.input@
    }

    spec fn buffer(&self) -> Buffer {
        Buffer { lexeme: self.current_lexeme@, tokens: token_views(self.tokens@) }
    }

    /// The lexer reads `s` and stands in front of its character `i`.
    spec fn at(&self, s: Seq<char>, i: int) -> bool {
        &&& self.input@ == s
        &&& self.position == clamp(i)
        &&& self.line == clamp(line_of(s, i))
        &&& self.column == clamp(column_of(s, i))
    }

    spec fn same_cursor(&self, other: &Lexer) -> bool {
        &&& self.input == other.input
        &&& self.position == other.position
        &&& self.line == other.line
        &&& self.column == other.column
    }

    /// A lexer for `input`.
    pub fn new(input: String) -> (lexer: Lexer)
        ensures
            lexer.source() == input@,
    {
        Lexer {
            input,
            position: 0,
            line: 1,
            column: 1,
            current_lexeme: Vec::new(),
            tokens: Vec::new(),
        }
    }

    /// The tokens of the text, or its first fault.
    pub fn tokenize(&mut self) -> (r: Result<Vec<Token>, LexError>)
        ensures
            final(self).source() == old(self).source(),
            match r {
                Ok(tokens) => lex(old(self).source()) == Ok::<Seq<TokenView>, LexError>(
                    token_views(tokens@),
                ),
                Err(e) => lex(old(self).source()) == Err::<Seq<TokenView>, LexError>(e),
            },
    {
        self.tokens.clear();
        self.current_lexeme.clear();
        self.position = 0;
        self.line = 1;
        self.column = 1;
        let chars = chars_of(self.input.as_str());
        let ghost s = chars@;
        let mut index: usize = 0;
        let mut state = State::Start;
        let ghost mut start: int = 0;
        proof {
            assert(token_views(self.tokens@) =~= Seq::<TokenView>::empty());
            lemma_prepend_nothing(lex(s));
        }
        while index < chars.len()
            invariant
                s == chars@,
                s == old(self).input@,
                index <= chars.len(),
                self.at(s, index as int),
                scanning(s, index as int, state, self.buffer(), start),
            decreases chars.len() - index, (if state == State::Start { 0int } else { 1int }),
        {
            let c = chars[index];
            let next_ch = if index + 1 < chars.len() {
                Some(chars[index + 1])
            } else {
                None
            };
            assert(next_ch == peek(s, index + 1));
            let class = match classify_char(c) {
                Some(class) => class,
                None => {
                    proof {
                        lemma_unexpected(s, index as int, state, self.buffer(), start);
                    }
                    return Err(self.fault_here(LexErrorKind::UnexpectedChar));
                },
            };
            match next_state(state, class) {
                Err(kind) => {
                    proof {
                        lemma_after_digit(s, index as int, state, self.buffer(), start);
                    }
                    return Err(self.fault_here(kind));
                },
                Ok(Some(next)) => {
                    proof {
                        start = lemma_step(s, index as int, state, self.buffer(), start);
                        lemma_position_positive(s, index as int);
                    }
                    run_action(self, action_for(state, class), Some(c), next_ch);
                    if c == '\n' {
                        self.line = saturating_next(self.line);
                        self.column = 0;
                    }
                    self.column = saturating_next(self.column);
                    index += 1;
                    self.position = index;
                    state = next;
                },
                Ok(None) => {
                    if matches!(state, State::Start) {
                        proof {
                            lemma_unexpected(s, index as int, state, self.buffer(), start);
                        }
                        return Err(self.fault_here(LexErrorKind::UnexpectedChar));
                    }
                    proof {
                        lemma_flush(s, index as int, state, self.buffer(), start);
                    }
                    match self.finalize_lexeme(state) {
                        Err(e) => {
                            return Err(e);
                        },
                        Ok(()) => {},
                    }
                    proof {
                        start = index as int;
                    }
                    state = State::Start;
                },
            }
        }
        if matches!(state, State::Comment | State::MayFinishComment) {
            proof {
                lemma_unterminated(s, state, self.buffer(), start);
            }
            return Err(self.fault_here(LexErrorKind::UnterminatedComment));
        }
        proof {
            lemma_flush(s, index as int, state, self.buffer(), start);
        }
        match self.finalize_lexeme(state) {
            Err(e) => {
                return Err(e);
            },
            Ok(()) => {},
        }
        proof {
            lemma_done(s, self.buffer());
        }
        let mut tokens: Vec<Token> = Vec::new();
        std::mem::swap(&mut self.tokens, &mut tokens);
        Ok(tokens)
    }

    /// The fault of the given kind at the place where the lexer stands.
    fn fault_here(&self, kind: LexErrorKind) -> (e: LexError)
        ensures
            e == (LexError { kind, position: self.position, line: self.line, column: self.column }),
    {
        LexError { kind, position: self.position, line: self.line, column: self.column }
    }

    fn append_char(&mut self, c: char)
        ensures
            final(self).buffer() == appended_char(old(self).buffer(), c),
            final(self).same_cursor(old(self)),
    {
        self.current_lexeme.push(c);
    }

    fn clear_lexeme(&mut self)
        ensures
            final(self).current_lexeme@ == Seq::<char>::empty(),
            final(self).tokens == old(self).tokens,
            final(self).same_cursor(old(self)),
    {
        self.current_lexeme.clear();
    }

    /// Emits `token` and drops the pending lexeme.
    fn emit(&mut self, token: Token)
        ensures
            final(self).buffer() == (Buffer {
                lexeme: Seq::empty(),
                tokens: old(self).buffer().tokens.push(token@),
            }),
            final(self).same_cursor(old(self)),
    {
        proof {
            lemma_token_views_push(self.tokens@, token);
        }
        self.tokens.push(token);
        self.clear_lexeme();
    }

    /// Turns the pending lexeme into its token, in the state in which the
    /// automaton stopped. A literal out of range is a fault, and the lexer
    /// is then as it was: no token is added and the lexeme stays.
    fn finalize_lexeme(&mut self, state: State) -> (r: Result<(), LexError>)
        requires
            state == State::Digit && old(self).current_lexeme@.len() > 0 ==> numeral_text(
                old(self).current_lexeme@,
            ),
        ensures
            final(self).same_cursor(old(self)),
            match finalized(state, old(self).buffer()) {
                Ok(tokens) => r is Ok && final(self).buffer() == (Buffer {
                    lexeme: Seq::empty(),
                    tokens,
                }),
                Err(kind) => *final(self) == *old(self) && r == Err::<(), LexError>(
                    LexError {
                        kind,
                        position: old(self).position,
                        line: old(self).line,
                        column: old(self).column,
                    },
                ),
            },
    {
        if self.current_lexeme.len() == 0 {
            assert(self.current_lexeme@ =~= Seq::<char>::empty());
            return Ok(());
        }
        match state {
            State::Digit => {
                match parse_integer(&self.current_lexeme) {
                    Some(n) => {
                        self.emit(Token::IntegerLiteral(n));
                        Ok(())
                    },
                    None => Err(self.fault_here(LexErrorKind::IntegerOverflow)),
                }
            },
            State::PipeOrIdentifier
            | State::AssignOrIdentifier
            | State::FinishAssignOrIdentifier
            | State::Identifier
            | State::FinishArrowOrIdentifier
            | State::ArrowOrIdentifierOrNegativeNumber => {
                match keyword_token(&self.current_lexeme) {
                    Some(token) => {
                        self.emit(token);
                    },
                    None => {
                        let name = string_of(&self.current_lexeme);
                        self.emit(Token::Identifier(name));
                    },
                }
                Ok(())
            },
            _ => {
                self.clear_lexeme();
                Ok(())
            },
        }
    }
}

spec fn appended_char(b: Buffer, c: char) -> Buffer {
    Buffer { lexeme: b.lexeme.push(c), tokens: b.tokens }
}

fn action_noop(lexer: &mut Lexer, ch: Option<char>, next_ch: Option<char>)
    ensures
        final(lexer).buffer() == act(Action::Noop, old(lexer).buffer(), ch, next_ch),
        final(lexer).same_cursor(old(lexer)),
{
}

fn action_start_lexeme(lexer: &mut Lexer, ch: Option<char>, next_ch: Option<char>)
    ensures
        final(lexer).buffer() == act(Action::StartLexeme, old(lexer).buffer(), ch, next_ch),
        final(lexer).same_cursor(old(lexer)),
{
    if let Some(c) = ch {
        lexer.append_char(c);
    }
}

fn action_append_lexeme(lexer: &mut Lexer, ch: Option<char>, next_ch: Option<char>)
    ensures
        final(lexer).buffer() == act(Action::AppendLexeme, old(lexer).buffer(), ch, next_ch),
        final(lexer).same_cursor(old(lexer)),
{
    if let Some(c) = ch {
        lexer.append_char(c);
    }
}

fn action_emit_semicolon(lexer: &mut Lexer, ch: Option<char>, next_ch: Option<char>)
    ensures
        final(lexer).buffer() == act(Action::EmitSemicolon, old(lexer).buffer(), ch, next_ch),
        final(lexer).same_cursor(old(lexer)),
{
    lexer.emit(Token::Semicolon);
}

/// Whether the lexeme is the two characters `a` and `b`.
fn lexeme_is(lexer: &Lexer, a: char, b: char) -> (r: bool)
    ensures
        r == (lexer.current_lexeme@ =~= seq![a, b]),
{
    lexer.current_lexeme.len() == 2 && lexer.current_lexeme[0] == a && lexer.current_lexeme[1] == b
}

fn action_maybe_emit_assign(lexer: &mut Lexer, ch: Option<char>, next_ch: Option<char>)
    ensures
        final(lexer).buffer() == maybe_emitted(
            old(lexer).buffer(),
            seq!['<', '-'],
            TokenView::Assign,
            next_ch,
        ),
        final(lexer).same_cursor(old(lexer)),
{
    if lexeme_is(lexer, '<', '-') && !is_identifier_char(next_ch.unwrap_or(' ')) {
        lexer.emit(Token::Assign);
    }
}

fn action_maybe_emit_arrow(lexer: &mut Lexer, ch: Option<char>, next_ch: Option<char>)
    ensures
        final(lexer).buffer() == maybe_emitted(
            old(lexer).buffer(),
            seq!['-', '>'],
            TokenView::Arrow,
            next_ch,
        ),
        final(lexer).same_cursor(old(lexer)),
{
    if lexeme_is(lexer, '-', '>') && !is_identifier_char(next_ch.unwrap_or(' ')) {
        lexer.emit(Token::Arrow);
    }
}

fn action_append_and_maybe_emit_assign(lexer: &mut Lexer, ch: Option<char>, next_ch: Option<char>)
    ensures
        final(lexer).buffer() == act(
            Action::AppendAndMaybeEmitAssign,
            old(lexer).buffer(),
            ch,
            next_ch,
        ),
        final(lexer).same_cursor(old(lexer)),
{
    if let Some(c) = ch {
        lexer.append_char(c);
    }
    action_maybe_emit_assign(lexer, None, next_ch);
}

fn action_append_and_maybe_emit_arrow(lexer: &mut Lexer, ch: Option<char>, next_ch: Option<char>)
    ensures
        final(lexer).buffer() == act(
            Action::AppendAndMaybeEmitArrow,
            old(lexer).buffer(),
            ch,
            next_ch,
        ),
        final(lexer).same_cursor(old(lexer)),
{
    if let Some(c) = ch {
        lexer.append_char(c);
    }
    action_maybe_emit_arrow(lexer, None, next_ch);
}

fn action_maybe_emit_paren_l(lexer: &mut Lexer, ch: Option<char>, next_ch: Option<char>)
    ensures
        final(lexer).buffer() == act(Action::MaybeEmitParenL, old(lexer).buffer(), ch, next_ch),
        final(lexer).same_cursor(old(lexer)),
{
    let opens_comment = match next_ch {
        Some(c) => c == '*',
        None => false,
    };
    if opens_comment {
        lexer.clear_lexeme();
    } else {
        lexer.emit(Token::ParenL);
    }
}

fn action_maybe_emit_paren_r(lexer: &mut Lexer, ch: Option<char>, next_ch: Option<char>)
    ensures
        final(lexer).buffer() == act(Action::MaybeEmitParenR, old(lexer).buffer(), ch, next_ch),
        final(lexer).same_cursor(old(lexer)),
{
    lexer.emit(Token::ParenR);
}

fn action_clear_paren_l(lexer: &mut Lexer, ch: Option<char>, next_ch: Option<char>)
    ensures
        final(lexer).buffer() == act(Action::ClearParenL, old(lexer).buffer(), ch, next_ch),
        final(lexer).same_cursor(old(lexer)),
{
    lexer.clear_lexeme();
}

fn action_end_comment(lexer: &mut Lexer, ch: Option<char>, next_ch: Option<char>)
    ensures
        final(lexer).buffer() == act(Action::EndComment, old(lexer).buffer(), ch, next_ch),
        final(lexer).same_cursor(old(lexer)),
{
    lexer.clear_lexeme();
}

/// Runs the action of a transition on the character `ch`, with `next_ch`
/// the character behind it.
fn run_action(lexer: &mut Lexer, action: Action, ch: Option<char>, next_ch: Option<char>)
    ensures
        final(lexer).buffer() == act(action, old(lexer).buffer(), ch, next_ch),
        final(lexer).same_cursor(old(lexer)),
{
    match action {
        Action::Noop => action_noop(lexer, ch, next_ch),
        Action::StartLexeme => action_start_lexeme(lexer, ch, next_ch),
        Action::AppendLexeme => action_append_lexeme(lexer, ch, next_ch),
        Action::EmitSemicolon => action_emit_semicolon(lexer, ch, next_ch),
        Action::AppendAndMaybeEmitAssign => action_append_and_maybe_emit_assign(lexer, ch, next_ch),
        Action::AppendAndMaybeEmitArrow => action_append_and_maybe_emit_arrow(lexer, ch, next_ch),
        Action::MaybeEmitParenL => action_maybe_emit_paren_l(lexer, ch, next_ch),
        Action::MaybeEmitParenR => action_maybe_emit_paren_r(lexer, ch, next_ch),
        Action::ClearParenL => action_clear_paren_l(lexer, ch, next_ch),
        Action::EndComment => action_end_comment(lexer, ch, next_ch),
    }
}

} // verus!
