use crate::ast::{
    arms_view, exprs_view, lemma_arms_view_push, lemma_exprs_view_push, lemma_names_view_push,
    names_view, ExprView,
};
pub use crate::ast::{Expr, Pattern};
use crate::grammar::{
    applied_at, args_at, arms_at, assign_at, atom_at, binary_head, call_at, decl_at, expr_at,
    grouped_at, match_at, params_at, pattern_of, program, seq_at, starts_atom, token_at, unary_head,
    while_at, Expected, Parsed,
};
use crate::lexical::{lex, LexError};
pub use crate::token::Token;
use crate::token::{lemma_token_views_push, token_views, TokenView};
use crate::tokenizer::Lexer;
use vstd::prelude::*;
use vstd::string::StringExecFns;

verus! {

/// A token that cannot stand where it is, or the end of the tokens where
/// more are needed.
#[derive(Debug, Clone, PartialEq)]
pub struct SyntaxError {
    /// The number of tokens before the fault.
    pub index: usize,
    /// The token at that place; `None` at the end of the tokens.
    pub found: Option<Token>,
    /// What could have stood there.
    pub expected: Expected,
}

impl SyntaxError {
    /// The value of the token that was found.
    pub open spec fn found_view(&self) -> Option<TokenView> {
        match self.found {
            Some(t) => Some(t@),
            None => None,
        }
    }

    /// Whether this is the fault of `ts` at `index`, where `expected` was
    /// looked for.
    pub open spec fn describes(&self, ts: Seq<TokenView>, index: int, expected: Expected) -> bool {
        &&& self.index == index
        &&& self.expected == expected
        &&& self.found_view() == token_at(ts, index)
    }
}

/// Why a text is not a program.
#[derive(Debug, Clone, PartialEq)]
pub enum ParseError {
    /// The text is not a sequence of tokens.
    Lexical(LexError),
    /// The tokens are not a program.
    Syntax(SyntaxError),
}

/// Whether `r` is what `parsed` says of the tokens `ts` from `pos` on.
pub open spec fn agrees(
    r: Result<(Expr, usize), SyntaxError>,
    ts: Seq<TokenView>,
    pos: int,
    parsed: Parsed<ExprView>,
) -> bool {
    match parsed {
        Parsed::Done { value, used } => match r {
            Ok((e, next)) => e@ == value && next == pos + used,
            Err(_) => false,
        },
        Parsed::Fail { index, expected } => match r {
            Ok(_) => false,
            Err(e) => e.describes(ts, index, expected),
        },
    }
}

/// A sequence of phrases with `front` put before it, which took `used`
/// tokens.
pub open spec fn prefixed<T>(front: Seq<T>, used: nat, rest: Parsed<Seq<T>>) -> Parsed<Seq<T>> {
    match rest {
        Parsed::Done { value, used: more } => Parsed::Done { value: front + value, used: used + more },
        Parsed::Fail { index, expected } => Parsed::Fail { index, expected },
    }
}

/// The atoms from `pos` on, none where no atom begins there.
pub open spec fn more_args(ts: Seq<TokenView>, pos: int) -> Parsed<Seq<ExprView>> {
    if starts_atom(token_at(ts, pos)) {
        args_at(ts, pos)
    } else {
        Parsed::Done { value: Seq::empty(), used: 0 }
    }
}

/// The arms from `pos` on, none where no `|` stands there.
pub open spec fn more_arms(ts: Seq<TokenView>, pos: int) -> Parsed<Seq<(Pattern, ExprView)>> {
    if token_at(ts, pos) == Some(TokenView::Pipe) {
        arms_at(ts, pos)
    } else {
        Parsed::Done { value: Seq::empty(), used: 0 }
    }
}

/// The token at `pos`, if there is one.
fn peek(tokens: &Vec<Token>, pos: usize) -> (r: Option<&Token>)
    ensures
        match r {
            Some(t) => pos < tokens.len() && *t == tokens[pos as int] && token_at(
                token_views(tokens@),
                pos as int,
            ) == Some(t@),
            None => pos >= tokens.len() && token_at(token_views(tokens@), pos as int) is None,
        },
{
    if pos < tokens.len() {
        Some(&tokens[pos])
    } else {
        None
    }
}

/// The fault at `pos`, where `expected` was looked for.
fn fail(tokens: &Vec<Token>, pos: usize, expected: Expected) -> (e: SyntaxError)
    ensures
        e.describes(token_views(tokens@), pos as int, expected),
{
    let found = match peek(tokens, pos) {
        Some(t) => Some(t.duplicate()),
        None => None,
    };
    SyntaxError { index: pos, found, expected }
}

/// The punctuation and the keywords that the grammar asks for by name.
#[derive(Copy, Clone, Debug, PartialEq, Eq, Structural)]
enum Mark {
    Decl,
    Assign,
    In,
    Do,
    Done,
    With,
    Pipe,
    Arrow,
    ParenR,
    Semicolon,
}

impl Mark {
    spec fn token(self) -> TokenView {
        match self {
            Mark::Decl => TokenView::Decl,
            Mark::Assign => TokenView::Assign,
            Mark::In => TokenView::In,
            Mark::Do => TokenView::Do,
            Mark::Done => TokenView::Done,
            Mark::With => TokenView::With,
            Mark::Pipe => TokenView::Pipe,
            Mark::Arrow => TokenView::Arrow,
            Mark::ParenR => TokenView::ParenR,
            Mark::Semicolon => TokenView::Semicolon,
        }
    }
}

/// Whether the token at `pos` is the given one.
fn at_mark(tokens: &Vec<Token>, pos: usize, mark: Mark) -> (r: bool)
    ensures
        r == (token_at(token_views(tokens@), pos as int) == Some(mark.token())),
        r ==> pos < tokens.len(),
{
    match peek(tokens, pos) {
        None => false,
        Some(t) => match (t, mark) {
            (Token::Decl, Mark::Decl) => true,
            (Token::Assign, Mark::Assign) => true,
            (Token::In, Mark::In) => true,
            (Token::Do, Mark::Do) => true,
            (Token::Done, Mark::Done) => true,
            (Token::With, Mark::With) => true,
            (Token::Pipe, Mark::Pipe) => true,
            (Token::Arrow, Mark::Arrow) => true,
            (Token::ParenR, Mark::ParenR) => true,
            (Token::Semicolon, Mark::Semicolon) => true,
            _ => false,
        },
    }
}

/// Whether an atom may begin at `pos`.
fn at_atom(tokens: &Vec<Token>, pos: usize) -> (r: bool)
    ensures
        r == starts_atom(token_at(token_views(tokens@), pos as int)),
        r ==> pos < tokens.len(),
{
    match peek(tokens, pos) {
        Some(Token::IntegerLiteral(_)) => true,
        Some(Token::Identifier(_)) => true,
        Some(Token::ParenL) => true,
        Some(Token::While) => true,
        Some(Token::Match) => true,
        _ => false,
    }
}

/// The name of the built-in of one argument that the token is the head of.
fn unary_name(t: &Token) -> (r: Option<String>)
    ensures
        match r {
            Some(name) => unary_head(t@) == Some(name@),
            None => unary_head(t@) is None,
        },
{
    match t {
        Token::Print => Some(String::from_str("print")),
        Token::Exclam => Some(String::from_str("!")),
        _ => None,
    }
}

/// The name of the built-in of two arguments that the token is the head of.
fn binary_name(t: &Token) -> (r: Option<String>)
    ensures
        match r {
            Some(name) => binary_head(t@) == Some(name@),
            None => binary_head(t@) is None,
        },
{
    match t {
        Token::Plus => Some(String::from_str("+")),
        Token::Minus => Some(String::from_str("-")),
        Token::Star => Some(String::from_str("*")),
        Token::Slash => Some(String::from_str("/")),
        Token::Percent => Some(String::from_str("%")),
        Token::Less => Some(String::from_str("<")),
        Token::Greater => Some(String::from_str(">")),
        Token::Equals => Some(String::from_str("=")),
        Token::NotEquals => Some(String::from_str("!=")),
        Token::Ampersand => Some(String::from_str("&")),
        Token::Pipe => Some(String::from_str("|")),
        _ => None,
    }
}

fn parse_expr(tokens: &Vec<Token>, pos: usize) -> (r: Result<(Expr, usize), SyntaxError>)
    requires
        pos <= tokens.len(),
    ensures
        agrees(r, token_views(tokens@), pos as int, expr_at(token_views(tokens@), pos as int)),
        r matches Ok((_, next)) ==> pos < next <= tokens.len(),
    decreases tokens.len() - pos, 6nat,
{
    if at_mark(tokens, pos, Mark::Decl) {
        parse_decl(tokens, pos)
    } else {
        parse_seq(tokens, pos)
    }
}

fn parse_decl(tokens: &Vec<Token>, pos: usize) -> (r: Result<(Expr, usize), SyntaxError>)
    requires
        pos < tokens.len(),
        token_at(token_views(tokens@), pos as int) == Some(TokenView::Decl),
    ensures
        agrees(r, token_views(tokens@), pos as int, decl_at(token_views(tokens@), pos as int)),
        r matches Ok((_, next)) ==> pos < next <= tokens.len(),
    decreases tokens.len() - pos, 5nat,
{
    let ghost ts = token_views(tokens@);
    let name = match peek(tokens, pos + 1) {
        Some(Token::Identifier(name)) => name.clone(),
        _ => {
            return Err(fail(tokens, pos + 1, Expected::Identifier));
        },
    };
    let mut params: Vec<String> = Vec::new();
    let mut p: usize = pos + 2;
    proof {
        assert(names_view(params@) + params_at(ts, p as int) =~= params_at(ts, p as int));
    }
    loop
        invariant
            ts == token_views(tokens@),
            pos + 2 <= p <= tokens.len(),
            p == pos + 2 + params.len(),
            params_at(ts, pos + 2) == names_view(params@) + params_at(ts, p as int),
        ensures
            params_at(ts, pos + 2) == names_view(params@),
        decreases tokens.len() - p,
    {
        match peek(tokens, p) {
            Some(Token::Identifier(param)) => {
                proof {
                    lemma_names_view_push(params@, *param);
                    assert(names_view(params@) + (seq![param@] + params_at(ts, p + 1))
                        =~= names_view(params@).push(param@) + params_at(ts, p + 1));
                }
                params.push(param.clone());
                p += 1;
            },
            _ => {
                proof {
                    assert(names_view(params@) + Seq::<Seq<char>>::empty() =~= names_view(
                        params@,
                    ));
                }
                break ;
            },
        }
    }
    if !at_mark(tokens, p, Mark::Assign) {
        return Err(fail(tokens, p, Expected::Assign));
    }
    let (value, after_value) = match parse_expr(tokens, p + 1) {
        Ok(done) => done,
        Err(e) => {
            return Err(e);
        },
    };
    if !at_mark(tokens, after_value, Mark::In) {
        return Err(fail(tokens, after_value, Expected::In));
    }
    let (body, end) = match parse_expr(tokens, after_value + 1) {
        Ok(done) => done,
        Err(e) => {
            return Err(e);
        },
    };
    Ok((Expr::Decl(name, params, Box::new(value), Box::new(body)), end))
}

fn parse_seq(tokens: &Vec<Token>, pos: usize) -> (r: Result<(Expr, usize), SyntaxError>)
    requires
        pos <= tokens.len(),
    ensures
        agrees(r, token_views(tokens@), pos as int, seq_at(token_views(tokens@), pos as int)),
        r matches Ok((_, next)) ==> pos < next <= tokens.len(),
    decreases tokens.len() - pos, 4nat,
{
    let (first, p) = match parse_assign(tokens, pos) {
        Ok(done) => done,
        Err(e) => {
            return Err(e);
        },
    };
    if at_mark(tokens, p, Mark::Semicolon) {
        let (second, end) = match parse_expr(tokens, p + 1) {
            Ok(done) => done,
            Err(e) => {
                return Err(e);
            },
        };
        Ok((Expr::Sequence(Box::new(first), Box::new(second)), end))
    } else {
        Ok((first, p))
    }
}

fn parse_assign(tokens: &Vec<Token>, pos: usize) -> (r: Result<(Expr, usize), SyntaxError>)
    requires
        pos <= tokens.len(),
    ensures
        agrees(r, token_views(tokens@), pos as int, assign_at(token_views(tokens@), pos as int)),
        r matches Ok((_, next)) ==> pos < next <= tokens.len(),
    decreases tokens.len() - pos, 3nat,
{
    match peek(tokens, pos) {
        Some(Token::Identifier(name)) => {
            if at_mark(tokens, pos + 1, Mark::Assign) {
                let (value, end) = match parse_assign(tokens, pos + 2) {
                    Ok(done) => done,
                    Err(e) => {
                        return Err(e);
                    },
                };
                Ok((Expr::Assign(name.clone(), Box::new(value)), end))
            } else {
                parse_call(tokens, pos)
            }
        },
        _ => parse_call(tokens, pos),
    }
}

fn parse_call(tokens: &Vec<Token>, pos: usize) -> (r: Result<(Expr, usize), SyntaxError>)
    requires
        pos <= tokens.len(),
    ensures
        agrees(r, token_views(tokens@), pos as int, call_at(token_views(tokens@), pos as int)),
        r matches Ok((_, next)) ==> pos < next <= tokens.len(),
    decreases tokens.len() - pos, 2nat,
{
    let head = match peek(tokens, pos) {
        Some(t) => t,
        None => {
            return Err(fail(tokens, pos, Expected::Expression));
        },
    };
    match unary_name(head) {
        Some(name) => parse_unary(tokens, pos, name),
        None => match binary_name(head) {
            Some(name) => parse_binary(tokens, pos, name),
            None => parse_atom(tokens, pos),
        },
    }
}

/// The call of the built-in of one argument whose head is at `pos`.
#[verifier::rlimit(60)]
fn parse_unary(tokens: &Vec<Token>, pos: usize, name: String) -> (r: Result<
    (Expr, usize),
    SyntaxError,
>)
    requires
        pos < tokens.len(),
        unary_head(token_views(tokens@)[pos as int]) == Some(name@),
    ensures
        agrees(r, token_views(tokens@), pos as int, call_at(token_views(tokens@), pos as int)),
        r matches Ok((_, next)) ==> pos < next <= tokens.len(),
    decreases tokens.len() - pos, 1nat,
{
    let (arg, end) = match parse_atom(tokens, pos + 1) {
        Ok(done) => done,
        Err(e) => {
            return Err(e);
        },
    };
    let mut args: Vec<Expr> = Vec::new();
    args.push(arg);
    proof {
        assert(exprs_view(args@) =~= seq![arg@]);
    }
    Ok((Expr::Call(name, args), end))
}

/// The call of the built-in of two arguments whose head is at `pos`.
#[verifier::rlimit(60)]
fn parse_binary(tokens: &Vec<Token>, pos: usize, name: String) -> (r: Result<
    (Expr, usize),
    SyntaxError,
>)
    requires
        pos < tokens.len(),
        unary_head(token_views(tokens@)[pos as int]) is None,
        binary_head(token_views(tokens@)[pos as int]) == Some(name@),
    ensures
        agrees(r, token_views(tokens@), pos as int, call_at(token_views(tokens@), pos as int)),
        r matches Ok((_, next)) ==> pos < next <= tokens.len(),
    decreases tokens.len() - pos, 1nat,
{
    let (first, p) = match parse_atom(tokens, pos + 1) {
        Ok(done) => done,
        Err(e) => {
            return Err(e);
        },
    };
    let (second, end) = match parse_atom(tokens, p) {
        Ok(done) => done,
        Err(e) => {
            return Err(e);
        },
    };
    let mut args: Vec<Expr> = Vec::new();
    args.push(first);
    args.push(second);
    proof {
        assert(exprs_view(args@) =~= seq![first@, second@]);
    }
    Ok((Expr::Call(name, args), end))
}

/// The atoms from `pos` on, where an atom begins at `pos`.
fn parse_args(tokens: &Vec<Token>, pos: usize) -> (r: Result<(Vec<Expr>, usize), SyntaxError>)
    requires
        pos < tokens.len(),
    ensures
        match args_at(token_views(tokens@), pos as int) {
            Parsed::Done { value, used } => r matches Ok((args, next)) && exprs_view(args@)
                == value && next == pos + used,
            Parsed::Fail { index, expected } => r matches Err(e) && e.describes(
                token_views(tokens@),
                index,
                expected,
            ),
        },
        r matches Ok((_, next)) ==> pos < next <= tokens.len(),
    decreases tokens.len() - pos, 1nat,
{
    let ghost ts = token_views(tokens@);
    let (first, after_first) = match parse_atom(tokens, pos) {
        Ok(done) => done,
        Err(e) => {
            return Err(e);
        },
    };
    let mut args: Vec<Expr> = Vec::new();
    args.push(first);
    let mut p: usize = after_first;
    proof {
        assert(exprs_view(args@) =~= seq![first@]);
    }
    while at_atom(tokens, p)
        invariant
            ts == token_views(tokens@),
            pos < p <= tokens.len(),
            args_at(ts, pos as int) == prefixed(
                exprs_view(args@),
                (p - pos) as nat,
                more_args(ts, p as int),
            ),
        decreases tokens.len() - p,
    {
        let (arg, next) = match parse_atom(tokens, p) {
            Ok(done) => done,
            Err(e) => {
                return Err(e);
            },
        };
        proof {
            lemma_exprs_view_push(args@, arg);
            let rest = more_args(ts, next as int);
            match rest {
                Parsed::Done { value, used } => {
                    assert(exprs_view(args@) + (seq![arg@] + value) =~= exprs_view(args@).push(
                        arg@,
                    ) + value);
                },
                Parsed::Fail { .. } => {},
            }
        }
        args.push(arg);
        p = next;
    }
    proof {
        assert(exprs_view(args@) + Seq::<ExprView>::empty() =~= exprs_view(args@));
    }
    Ok((args, p))
}

#[verifier::rlimit(60)]
fn parse_atom(tokens: &Vec<Token>, pos: usize) -> (r: Result<(Expr, usize), SyntaxError>)
    requires
        pos <= tokens.len(),
    ensures
        agrees(r, token_views(tokens@), pos as int, atom_at(token_views(tokens@), pos as int)),
        r matches Ok((_, next)) ==> pos < next <= tokens.len(),
    decreases tokens.len() - pos, 0nat,
{
    match peek(tokens, pos) {
        Some(Token::IntegerLiteral(n)) => Ok((Expr::Number(*n), pos + 1)),
        Some(Token::Identifier(name)) => Ok((Expr::Ident(name.clone()), pos + 1)),
        Some(Token::ParenL) => {
            let applies = match peek(tokens, pos + 1) {
                Some(Token::Identifier(_)) => at_atom(tokens, pos + 2),
                _ => false,
            };
            if applies {
                parse_applied(tokens, pos)
            } else {
                parse_grouped(tokens, pos)
            }
        },
        Some(Token::While) => parse_while(tokens, pos),
        Some(Token::Match) => parse_match(tokens, pos),
        _ => Err(fail(tokens, pos, Expected::Expression)),
    }
}

/// `( Ident AtomExpr+ )`, where `(` is at `pos`.
fn parse_applied(tokens: &Vec<Token>, pos: usize) -> (r: Result<(Expr, usize), SyntaxError>)
    requires
        pos + 2 < tokens.len(),
    ensures
        agrees(r, token_views(tokens@), pos as int, applied_at(token_views(tokens@), pos as int)),
        r matches Ok((_, next)) ==> pos < next <= tokens.len(),
    decreases tokens.len() - (pos + 2), 9nat,
{
    let head = match peek(tokens, pos + 1) {
        Some(Token::Identifier(head)) => head.clone(),
        _ => {
            return Err(fail(tokens, pos + 1, Expected::Identifier));
        },
    };
    let (args, p) = match parse_args(tokens, pos + 2) {
        Ok(done) => done,
        Err(e) => {
            return Err(e);
        },
    };
    if !at_mark(tokens, p, Mark::ParenR) {
        return Err(fail(tokens, p, Expected::ParenR));
    }
    Ok((Expr::Call(head, args), p + 1))
}

/// `( Expr )`, where `(` is at `pos`.
fn parse_grouped(tokens: &Vec<Token>, pos: usize) -> (r: Result<(Expr, usize), SyntaxError>)
    requires
        pos < tokens.len(),
    ensures
        agrees(r, token_views(tokens@), pos as int, grouped_at(token_views(tokens@), pos as int)),
        r matches Ok((_, next)) ==> pos < next <= tokens.len(),
    decreases tokens.len() - (pos + 1), 9nat,
{
    let (inner, p) = match parse_expr(tokens, pos + 1) {
        Ok(done) => done,
        Err(e) => {
            return Err(e);
        },
    };
    if !at_mark(tokens, p, Mark::ParenR) {
        return Err(fail(tokens, p, Expected::ParenR));
    }
    Ok((inner, p + 1))
}

/// `While Expr Do Expr Done`, where `While` is at `pos`.
fn parse_while(tokens: &Vec<Token>, pos: usize) -> (r: Result<(Expr, usize), SyntaxError>)
    requires
        pos < tokens.len(),
    ensures
        agrees(r, token_views(tokens@), pos as int, while_at(token_views(tokens@), pos as int)),
        r matches Ok((_, next)) ==> pos < next <= tokens.len(),
    decreases tokens.len() - (pos + 1), 9nat,
{
    let (cond, p) = match parse_expr(tokens, pos + 1) {
        Ok(done) => done,
        Err(e) => {
            return Err(e);
        },
    };
    if !at_mark(tokens, p, Mark::Do) {
        return Err(fail(tokens, p, Expected::Do));
    }
    let (body, q) = match parse_expr(tokens, p + 1) {
        Ok(done) => done,
        Err(e) => {
            return Err(e);
        },
    };
    if !at_mark(tokens, q, Mark::Done) {
        return Err(fail(tokens, q, Expected::Done));
    }
    Ok((Expr::While(Box::new(cond), Box::new(body)), q + 1))
}

/// `Match Expr With MatchArms`, where `Match` is at `pos`.
fn parse_match(tokens: &Vec<Token>, pos: usize) -> (r: Result<(Expr, usize), SyntaxError>)
    requires
        pos < tokens.len(),
    ensures
        agrees(r, token_views(tokens@), pos as int, match_at(token_views(tokens@), pos as int)),
        r matches Ok((_, next)) ==> pos < next <= tokens.len(),
    decreases tokens.len() - (pos + 1), 9nat,
{
    let (scrutinee, p) = match parse_expr(tokens, pos + 1) {
        Ok(done) => done,
        Err(e) => {
            return Err(e);
        },
    };
    if !at_mark(tokens, p, Mark::With) {
        return Err(fail(tokens, p, Expected::With));
    }
    let (arms, end) = match parse_arms(tokens, p + 1) {
        Ok(done) => done,
        Err(e) => {
            return Err(e);
        },
    };
    Ok((Expr::Match(Box::new(scrutinee), arms), end))
}

/// The pattern that the token at `pos` is.
fn pattern_at(tokens: &Vec<Token>, pos: usize) -> (r: Option<Pattern>)
    ensures
        r == pattern_of(token_at(token_views(tokens@), pos as int)),
        r is Some ==> pos < tokens.len(),
{
    match peek(tokens, pos) {
        Some(Token::IntegerLiteral(n)) => Some(Pattern::Literal(*n)),
        Some(Token::Underscore) => Some(Pattern::Wildcard),
        _ => None,
    }
}

/// The arms from `pos` on.
fn parse_arms(tokens: &Vec<Token>, pos: usize) -> (r: Result<
    (Vec<(Pattern, Expr)>, usize),
    SyntaxError,
>)
    requires
        pos <= tokens.len(),
    ensures
        match arms_at(token_views(tokens@), pos as int) {
            Parsed::Done { value, used } => r matches Ok((arms, next)) && arms_view(arms@)
                == value && next == pos + used,
            Parsed::Fail { index, expected } => r matches Err(e) && e.describes(
                token_views(tokens@),
                index,
                expected,
            ),
        },
        r matches Ok((_, next)) ==> pos < next <= tokens.len(),
    decreases tokens.len() - pos, 8nat,
{
    let ghost ts = token_views(tokens@);
    if !at_mark(tokens, pos, Mark::Pipe) {
        return Err(fail(tokens, pos, Expected::Pipe));
    }
    let mut arms: Vec<(Pattern, Expr)> = Vec::new();
    let mut p: usize = pos;
    proof {
        assert(arms_view(arms@) =~= Seq::<(Pattern, ExprView)>::empty());
        match more_arms(ts, p as int) {
            Parsed::Done { value, used } => {
                assert(arms_view(arms@) + value =~= value);
            },
            Parsed::Fail { .. } => {},
        }
    }
    while at_mark(tokens, p, Mark::Pipe)
        invariant
            ts == token_views(tokens@),
            pos <= p <= tokens.len(),
            p == pos ==> token_at(ts, pos as int) == Some(TokenView::Pipe) && arms.len() == 0,
            p > pos ==> arms.len() > 0,
            arms_at(ts, pos as int) == prefixed(
                arms_view(arms@),
                (p - pos) as nat,
                more_arms(ts, p as int),
            ),
        decreases tokens.len() - p,
    {
        let pattern = match pattern_at(tokens, p + 1) {
            Some(pattern) => pattern,
            None => {
                return Err(fail(tokens, p + 1, Expected::Pattern));
            },
        };
        if !at_mark(tokens, p + 2, Mark::Arrow) {
            return Err(fail(tokens, p + 2, Expected::Arrow));
        }
        let (body, next) = match parse_expr(tokens, p + 3) {
            Ok(done) => done,
            Err(e) => {
                return Err(e);
            },
        };
        proof {
            lemma_arms_view_push(arms@, pattern, body);
            match more_arms(ts, next as int) {
                Parsed::Done { value, used } => {
                    assert(arms_view(arms@) + (seq![(pattern, body@)] + value) =~= arms_view(
                        arms@,
                    ).push((pattern, body@)) + value);
                },
                Parsed::Fail { .. } => {},
            }
        }
        arms.push((pattern, body));
        p = next;
    }
    proof {
        assert(arms_view(arms@) + Seq::<(Pattern, ExprView)>::empty() =~= arms_view(arms@));
    }
    Ok((arms, p))
}

/// Whether `ts` cannot begin a program: one of its tokens cannot stand where
/// it is.
pub open spec fn rejected(ts: Seq<TokenView>) -> bool {
    match program(ts) {
        Parsed::Done { .. } => false,
        Parsed::Fail { index, .. } => index < ts.len(),
    }
}

/// Whether `r` is what the grammar says of the tokens `ts`.
pub open spec fn is_program_of(r: Result<Expr, SyntaxError>, ts: Seq<TokenView>) -> bool {
    match program(ts) {
        Parsed::Done { value, used } => r matches Ok(e) && e@ == value,
        Parsed::Fail { index, expected } => r matches Err(e) && e.describes(ts, index, expected),
    }
}

/// Whether `r` is what the lexical rules and the grammar say of the text `s`.
pub open spec fn is_parse_of(r: Result<Expr, ParseError>, s: Seq<char>) -> bool {
    match lex(s) {
        Err(fault) => r matches Err(ParseError::Lexical(e)) && e == fault,
        Ok(ts) => match program(ts) {
            Parsed::Done { value, used } => r matches Ok(e) && e@ == value,
            Parsed::Fail { index, expected } => r matches Err(ParseError::Syntax(e))
                && e.describes(ts, index, expected),
        },
    }
}

/// The program that the tokens are, or the first token that cannot stand
/// where it is.
pub fn parse_tokens(tokens: &Vec<Token>) -> (r: Result<Expr, SyntaxError>)
    ensures
        is_program_of(r, token_views(tokens@)),
{
    let (e, end) = match parse_expr(tokens, 0) {
        Ok(done) => done,
        Err(e) => {
            return Err(e);
        },
    };
    if end == tokens.len() {
        Ok(e)
    } else {
        Err(fail(tokens, end, Expected::EndOfInput))
    }
}

/// A parser that is handed its tokens one at a time.
#[derive(Debug)]
pub struct Parser {
    tokens: Vec<Token>,
}

impl Parser {
    /// The tokens that the parser has taken.
    pub closed spec fn taken(&self) -> Seq<TokenView> {
        token_views(self.tokens@)
    }

    /// A parser that has taken no token.
    pub fn new() -> (parser: Parser)
        ensures
            parser.taken() == Seq::<TokenView>::empty(),
    {
        let parser = Parser { tokens: Vec::new() };
        assert(parser.taken() =~= Seq::<TokenView>::empty());
        parser
    }

    /// Takes the next token, unless the tokens taken and this one are no
    /// program for a fault at one of them, which no token behind them can
    /// mend: the token is then refused and the parser stays as it was. Each
    /// call reads again the tokens taken so far.
    pub fn parse(&mut self, token: Token) -> (r: Result<(), SyntaxError>)
        ensures
            match r {
                Ok(()) => final(self).taken() == old(self).taken().push(token@) && !rejected(
                    final(self).taken(),
                ),
                Err(e) => final(self).taken() == old(self).taken() && rejected(
                    old(self).taken().push(token@),
                ) && is_program_of(Err(e), old(self).taken().push(token@)),
            },
    {
        proof {
            lemma_token_views_push(self.tokens@, token);
        }
        self.tokens.push(token);
        let refused = match parse_tokens(&self.tokens) {
            Err(e) => if e.index < self.tokens.len() {
                Some(e)
            } else {
                None
            },
            Ok(_) => None,
        };
        match refused {
            Some(e) => {
                self.tokens.pop();
                assert(self.tokens@ =~= old(self).tokens@);
                Err(e)
            },
            None => Ok(()),
        }
    }

    /// The program that the tokens taken are.
    pub fn end_of_input(self) -> (r: Result<Expr, SyntaxError>)
        ensures
            is_program_of(r, self.taken()),
    {
        parse_tokens(&self.tokens)
    }
}

/// The program that a text is.
pub fn parse_program(input: String) -> (r: Result<Expr, ParseError>)
    ensures
        is_parse_of(r, input@),
{
    let mut lexer = Lexer::new(input);
    let tokens = match lexer.tokenize() {
        Ok(tokens) => tokens,
        Err(e) => {
            return Err(ParseError::Lexical(e));
        },
    };
    match parse_tokens(&tokens) {
        Ok(e) => Ok(e),
        Err(e) => Err(ParseError::Syntax(e)),
    }
}

/// The program that a text is, and the tokens of the text.
pub fn parse_program_verbose(input: String) -> (r: Result<(Expr, Vec<Token>), ParseError>)
    ensures
        match r {
            Ok((e, tokens)) => is_parse_of(Ok(e), input@) && lex(input@) == Ok::<
                Seq<TokenView>,
                LexError,
            >(token_views(tokens@)),
            Err(e) => is_parse_of(Err(e), input@),
        },
{
    let mut lexer = Lexer::new(input);
    let tokens = match lexer.tokenize() {
        Ok(tokens) => tokens,
        Err(e) => {
            return Err(ParseError::Lexical(e));
        },
    };
    match parse_tokens(&tokens) {
        Ok(e) => Ok((e, tokens)),
        Err(e) => Err(ParseError::Syntax(e)),
    }
}

} // verus!
