use vstd::prelude::*;

verus! {

/// A lexical token of the language.
#[derive(Debug, Clone, PartialEq)]
pub enum Token {
    IntegerLiteral(i64),
    Identifier(String),
    Decl,
    While,
    Do,
    Done,
    Match,
    With,
    In,
    Print,
    Assign,
    Arrow,
    Pipe,
    Underscore,
    Semicolon,
    ParenL,
    ParenR,
    Plus,
    Minus,
    Star,
    Slash,
    Percent,
    Equals,
    NotEquals,
    Less,
    Greater,
    Exclam,
    Ampersand,
}

/// The mathematical value of a [`Token`]: the same variants, with an
/// identifier's text as a sequence of characters.
pub ghost enum TokenView {
    IntegerLiteral(i64),
    Identifier(Seq<char>),
    Decl,
    While,
    Do,
    Done,
    Match,
    With,
    In,
    Print,
    Assign,
    Arrow,
    Pipe,
    Underscore,
    Semicolon,
    ParenL,
    ParenR,
    Plus,
    Minus,
    Star,
    Slash,
    Percent,
    Equals,
    NotEquals,
    Less,
    Greater,
    Exclam,
    Ampersand,
}

impl View for Token {
    type V = TokenView;

    open spec fn view(&self) -> TokenView {
        match self {
            Token::IntegerLiteral(n) => TokenView::IntegerLiteral(*n),
            Token::Identifier(s) => TokenView::Identifier(s@),
            Token::Decl => TokenView::Decl,
            Token::While => TokenView::While,
            Token::Do => TokenView::Do,
            Token::Done => TokenView::Done,
            Token::Match => TokenView::Match,
            Token::With => TokenView::With,
            Token::In => TokenView::In,
            Token::Print => TokenView::Print,
            Token::Assign => TokenView::Assign,
            Token::Arrow => TokenView::Arrow,
            Token::Pipe => TokenView::Pipe,
            Token::Underscore => TokenView::Underscore,
            Token::Semicolon => TokenView::Semicolon,
            Token::ParenL => TokenView::ParenL,
            Token::ParenR => TokenView::ParenR,
            Token::Plus => TokenView::Plus,
            Token::Minus => TokenView::Minus,
            Token::Star => TokenView::Star,
            Token::Slash => TokenView::Slash,
            Token::Percent => TokenView::Percent,
            Token::Equals => TokenView::Equals,
            Token::NotEquals => TokenView::NotEquals,
            Token::Less => TokenView::Less,
            Token::Greater => TokenView::Greater,
            Token::Exclam => TokenView::Exclam,
            Token::Ampersand => TokenView::Ampersand,
        }
    }
}

impl Token {
    /// A copy of the token.
    pub fn duplicate(&self) -> (r: Token)
        ensures
            r@ == self@,
    {
        match self {
            Token::IntegerLiteral(n) => Token::IntegerLiteral(*n),
            Token::Identifier(s) => Token::Identifier(s.clone()),
            Token::Decl => Token::Decl,
            Token::While => Token::While,
            Token::Do => Token::Do,
            Token::Done => Token::Done,
            Token::Match => Token::Match,
            Token::With => Token::With,
            Token::In => Token::In,
            Token::Print => Token::Print,
            Token::Assign => Token::Assign,
            Token::Arrow => Token::Arrow,
            Token::Pipe => Token::Pipe,
            Token::Underscore => Token::Underscore,
            Token::Semicolon => Token::Semicolon,
            Token::ParenL => Token::ParenL,
            Token::ParenR => Token::ParenR,
            Token::Plus => Token::Plus,
            Token::Minus => Token::Minus,
            Token::Star => Token::Star,
            Token::Slash => Token::Slash,
            Token::Percent => Token::Percent,
            Token::Equals => Token::Equals,
            Token::NotEquals => Token::NotEquals,
            Token::Less => Token::Less,
            Token::Greater => Token::Greater,
            Token::Exclam => Token::Exclam,
            Token::Ampersand => Token::Ampersand,
        }
    }
}

/// The values of a sequence of tokens, in order.
pub open spec fn token_views(tokens: Seq<Token>) -> Seq<TokenView> {
    tokens.map_values(|t: Token| t@)
}

/// Appending a token appends its value.
pub proof fn lemma_token_views_push(tokens: Seq<Token>, token: Token)
    ensures
        token_views(tokens.push(token)) == token_views(tokens).push(token@),
{
    assert(token_views(tokens.push(token)) =~= token_views(tokens).push(token@));
}

} // verus!
