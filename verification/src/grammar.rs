use crate::ast::{ExprView, Pattern};
use crate::token::TokenView;
use vstd::prelude::*;

verus! {

/// What the parser was looking for where it stopped.
#[derive(Copy, Clone, Debug, PartialEq, Eq, Structural)]
pub enum Expected {
    /// The first token of an expression.
    Expression,
    Identifier,
    Assign,
    In,
    Do,
    Done,
    With,
    Pipe,
    /// An integer literal or `_`.
    Pattern,
    Arrow,
    ParenR,
    /// Nothing more: the program was complete.
    EndOfInput,
}

/// The outcome of reading one phrase of the grammar at some position of a
/// token sequence: its value and the number of tokens that it is made of, or
/// the position of the first token that cannot stand where it is.
pub ghost enum Parsed<T> {
    Done { value: T, used: nat },
    Fail { index: int, expected: Expected },
}

/// The token at `pos`, if there is one.
pub open spec fn token_at(ts: Seq<TokenView>, pos: int) -> Option<TokenView> {
    if 0 <= pos < ts.len() {
        Some(ts[pos])
    } else {
        None
    }
}

/// The number of tokens from `pos` on.
pub open spec fn left(ts: Seq<TokenView>, pos: int) -> nat {
    if pos < ts.len() {
        (ts.len() - pos) as nat
    } else {
        0
    }
}

/// Whether an atom may begin with the token.
pub open spec fn starts_atom(t: Option<TokenView>) -> bool {
    match t {
        Some(TokenView::IntegerLiteral(_)) => true,
        Some(TokenView::Identifier(_)) => true,
        Some(TokenView::ParenL) => true,
        Some(TokenView::While) => true,
        Some(TokenView::Match) => true,
        _ => false,
    }
}

/// The name of the built-in of two arguments that the token is the head of.
pub open spec fn binary_head(t: TokenView) -> Option<Seq<char>> {
    match t {
        TokenView::Plus => Some("+"@),
        TokenView::Minus => Some("-"@),
        TokenView::Star => Some("*"@),
        TokenView::Slash => Some("/"@),
        TokenView::Percent => Some("%"@),
        TokenView::Less => Some("<"@),
        TokenView::Greater => Some(">"@),
        TokenView::Equals => Some("="@),
        TokenView::NotEquals => Some("!="@),
        TokenView::Ampersand => Some("&"@),
        TokenView::Pipe => Some("|"@),
        _ => None,
    }
}

/// The name of the built-in of one argument that the token is the head of.
pub open spec fn unary_head(t: TokenView) -> Option<Seq<char>> {
    match t {
        TokenView::Print => Some("print"@),
        TokenView::Exclam => Some("!"@),
        _ => None,
    }
}

/// The pattern that the token is.
pub open spec fn pattern_of(t: Option<TokenView>) -> Option<Pattern> {
    match t {
        Some(TokenView::IntegerLiteral(n)) => Some(Pattern::Literal(n)),
        Some(TokenView::Underscore) => Some(Pattern::Wildcard),
        _ => None,
    }
}

/// `ParamList`: the identifiers from `pos` on, as many as follow each other.
pub open spec fn params_at(ts: Seq<TokenView>, pos: int) -> Seq<Seq<char>>
    decreases left(ts, pos),
{
    match token_at(ts, pos) {
        Some(TokenView::Identifier(name)) => seq![name] + params_at(ts, pos + 1),
        _ => Seq::empty(),
    }
}

/// `Expr`: a declaration, which reaches as far to the right as it can, or a
/// sequence.
pub open spec fn expr_at(ts: Seq<TokenView>, pos: int) -> Parsed<ExprView>
    decreases left(ts, pos), 6nat,
{
    match token_at(ts, pos) {
        Some(TokenView::Decl) => decl_at(ts, pos),
        _ => seq_at(ts, pos),
    }
}

/// `Decl Ident ParamList? <- Expr In Expr`, where `Decl` is at `pos`.
pub open spec fn decl_at(ts: Seq<TokenView>, pos: int) -> Parsed<ExprView>
    decreases left(ts, pos), 5nat,
{
    if token_at(ts, pos) != Some(TokenView::Decl) {
        Parsed::Fail { index: pos, expected: Expected::Expression }
    } else {
        match token_at(ts, pos + 1) {
            Some(TokenView::Identifier(name)) => {
                let params = params_at(ts, pos + 2);
                let arrow = pos + 2 + params.len();
                if token_at(ts, arrow) != Some(TokenView::Assign) {
                    Parsed::Fail { index: arrow, expected: Expected::Assign }
                } else {
                    match expr_at(ts, arrow + 1) {
                        Parsed::Fail { index, expected } => Parsed::Fail { index, expected },
                        Parsed::Done { value, used } => {
                            let inword = arrow + 1 + used;
                            if token_at(ts, inword) != Some(TokenView::In) {
                                Parsed::Fail { index: inword, expected: Expected::In }
                            } else {
                                match expr_at(ts, inword + 1) {
                                    Parsed::Fail { index, expected } => Parsed::Fail {
                                        index,
                                        expected,
                                    },
                                    Parsed::Done { value: body, used: more } => Parsed::Done {
                                        value: ExprView::Decl(
                                            name,
                                            params,
                                            Box::new(value),
                                            Box::new(body),
                                        ),
                                        used: params.len() + used + more + 4,
                                    },
                                }
                            }
                        },
                    }
                }
            },
            _ => Parsed::Fail { index: pos + 1, expected: Expected::Identifier },
        }
    }
}

/// `SeqExpr`: an assignment expression, and behind a `;` an expression: the
/// `;` groups to the right.
pub open spec fn seq_at(ts: Seq<TokenView>, pos: int) -> Parsed<ExprView>
    decreases left(ts, pos), 4nat,
{
    match assign_at(ts, pos) {
        Parsed::Fail { index, expected } => Parsed::Fail { index, expected },
        Parsed::Done { value, used } => {
            if token_at(ts, pos + used) == Some(TokenView::Semicolon) {
                match expr_at(ts, pos + used + 1) {
                    Parsed::Fail { index, expected } => Parsed::Fail { index, expected },
                    Parsed::Done { value: second, used: more } => Parsed::Done {
                        value: ExprView::Sequence(Box::new(value), Box::new(second)),
                        used: used + more + 1,
                    },
                }
            } else {
                Parsed::Done { value, used }
            }
        },
    }
}

/// `AssignExpr`: an identifier, `<-` and an assignment expression, or a call.
pub open spec fn assign_at(ts: Seq<TokenView>, pos: int) -> Parsed<ExprView>
    decreases left(ts, pos), 3nat,
{
    match token_at(ts, pos) {
        Some(TokenView::Identifier(name)) => {
            if token_at(ts, pos + 1) == Some(TokenView::Assign) {
                match assign_at(ts, pos + 2) {
                    Parsed::Fail { index, expected } => Parsed::Fail { index, expected },
                    Parsed::Done { value, used } => Parsed::Done {
                        value: ExprView::Assign(name, Box::new(value)),
                        used: used + 2,
                    },
                }
            } else {
                call_at(ts, pos)
            }
        },
        _ => call_at(ts, pos),
    }
}

/// `CallExpr`: the head of a built-in and as many atoms as it takes, or an
/// atom.
pub open spec fn call_at(ts: Seq<TokenView>, pos: int) -> Parsed<ExprView>
    decreases left(ts, pos), 2nat,
{
    match token_at(ts, pos) {
        None => Parsed::Fail { index: pos, expected: Expected::Expression },
        Some(t) => {
            if unary_head(t) is Some {
                match atom_at(ts, pos + 1) {
                    Parsed::Fail { index, expected } => Parsed::Fail { index, expected },
                    Parsed::Done { value, used } => Parsed::Done {
                        value: ExprView::Call(unary_head(t)->0, seq![value]),
                        used: used + 1,
                    },
                }
            } else if binary_head(t) is Some {
                match atom_at(ts, pos + 1) {
                    Parsed::Fail { index, expected } => Parsed::Fail { index, expected },
                    Parsed::Done { value, used } => match atom_at(ts, pos + 1 + used) {
                        Parsed::Fail { index, expected } => Parsed::Fail { index, expected },
                        Parsed::Done { value: second, used: more } => Parsed::Done {
                            value: ExprView::Call(binary_head(t)->0, seq![value, second]),
                            used: used + more + 1,
                        },
                    },
                }
            } else {
                atom_at(ts, pos)
            }
        },
    }
}

/// The atoms from `pos` on, as many as follow each other, and at least one.
pub open spec fn args_at(ts: Seq<TokenView>, pos: int) -> Parsed<Seq<ExprView>>
    decreases left(ts, pos), 1nat,
{
    match atom_at(ts, pos) {
        Parsed::Fail { index, expected } => Parsed::Fail { index, expected },
        Parsed::Done { value, used } => {
            if used > 0 && starts_atom(token_at(ts, pos + used)) {
                match args_at(ts, pos + used) {
                    Parsed::Fail { index, expected } => Parsed::Fail { index, expected },
                    Parsed::Done { value: rest, used: more } => Parsed::Done {
                        value: seq![value] + rest,
                        used: used + more,
                    },
                }
            } else {
                Parsed::Done { value: seq![value], used }
            }
        },
    }
}

/// `AtomExpr`: a literal, an identifier, a call in parentheses, an
/// expression in parentheses, a loop or a match.
pub open spec fn atom_at(ts: Seq<TokenView>, pos: int) -> Parsed<ExprView>
    decreases left(ts, pos), 0nat,
{
    match token_at(ts, pos) {
        Some(TokenView::IntegerLiteral(n)) => Parsed::Done { value: ExprView::Number(n), used: 1 },
        Some(TokenView::Identifier(name)) => Parsed::Done { value: ExprView::Ident(name), used: 1 },
        Some(TokenView::ParenL) => {
            if token_at(ts, pos + 1) is Some && token_at(ts, pos + 1)->0 is Identifier
                && starts_atom(token_at(ts, pos + 2)) {
                applied_at(ts, pos)
            } else {
                grouped_at(ts, pos)
            }
        },
        Some(TokenView::While) => while_at(ts, pos),
        Some(TokenView::Match) => match_at(ts, pos),
        _ => Parsed::Fail { index: pos, expected: Expected::Expression },
    }
}

/// `( Ident AtomExpr+ )`, where `(` is at `pos`, the identifier behind it
/// and the first token of an atom behind that.
pub open spec fn applied_at(ts: Seq<TokenView>, pos: int) -> Parsed<ExprView>
    decreases left(ts, pos + 2), 9nat,
{
    match token_at(ts, pos + 1) {
        Some(TokenView::Identifier(head)) => match args_at(ts, pos + 2) {
            Parsed::Fail { index, expected } => Parsed::Fail { index, expected },
            Parsed::Done { value, used } => closing(
                ts,
                pos + 2 + used,
                ExprView::Call(head, value),
                used + 3,
            ),
        },
        _ => Parsed::Fail { index: pos + 1, expected: Expected::Identifier },
    }
}

/// `While Expr Do Expr Done`, where `While` is at `pos`.
pub open spec fn while_at(ts: Seq<TokenView>, pos: int) -> Parsed<ExprView>
    decreases left(ts, pos + 1), 9nat,
{
    match expr_at(ts, pos + 1) {
        Parsed::Fail { index, expected } => Parsed::Fail { index, expected },
        Parsed::Done { value, used } => {
            if token_at(ts, pos + 1 + used) != Some(TokenView::Do) {
                Parsed::Fail { index: pos + 1 + used, expected: Expected::Do }
            } else {
                match expr_at(ts, pos + 2 + used) {
                    Parsed::Fail { index, expected } => Parsed::Fail { index, expected },
                    Parsed::Done { value: body, used: more } => {
                        if token_at(ts, pos + 2 + used + more) != Some(TokenView::Done) {
                            Parsed::Fail { index: pos + 2 + used + more, expected: Expected::Done }
                        } else {
                            Parsed::Done {
                                value: ExprView::While(Box::new(value), Box::new(body)),
                                used: used + more + 3,
                            }
                        }
                    },
                }
            }
        },
    }
}

/// `Match Expr With MatchArms`, where `Match` is at `pos`.
pub open spec fn match_at(ts: Seq<TokenView>, pos: int) -> Parsed<ExprView>
    decreases left(ts, pos + 1), 9nat,
{
    match expr_at(ts, pos + 1) {
        Parsed::Fail { index, expected } => Parsed::Fail { index, expected },
        Parsed::Done { value, used } => {
            if token_at(ts, pos + 1 + used) != Some(TokenView::With) {
                Parsed::Fail { index: pos + 1 + used, expected: Expected::With }
            } else {
                match arms_at(ts, pos + 2 + used) {
                    Parsed::Fail { index, expected } => Parsed::Fail { index, expected },
                    Parsed::Done { value: arms, used: more } => Parsed::Done {
                        value: ExprView::Match(Box::new(value), arms),
                        used: used + more + 2,
                    },
                }
            }
        },
    }
}

/// `( Expr )`, where `(` is at `pos`.
pub open spec fn grouped_at(ts: Seq<TokenView>, pos: int) -> Parsed<ExprView>
    decreases left(ts, pos + 1), 9nat,
{
    match expr_at(ts, pos + 1) {
        Parsed::Fail { index, expected } => Parsed::Fail { index, expected },
        Parsed::Done { value, used } => closing(ts, pos + 1 + used, value, used + 2),
    }
}

/// The phrase `value` of `used` tokens, if its closing `)` stands at `pos`.
pub open spec fn closing(ts: Seq<TokenView>, pos: int, value: ExprView, used: nat) -> Parsed<
    ExprView,
> {
    if token_at(ts, pos) == Some(TokenView::ParenR) {
        Parsed::Done { value, used }
    } else {
        Parsed::Fail { index: pos, expected: Expected::ParenR }
    }
}

/// `MatchArms`: `| Pattern -> Expr`, as many as follow each other, and at
/// least one. An arm's expression reaches as far to the right as it can, so
/// that the arms behind a match belong to the innermost one.
pub open spec fn arms_at(ts: Seq<TokenView>, pos: int) -> Parsed<Seq<(Pattern, ExprView)>>
    decreases left(ts, pos), 8nat,
{
    if token_at(ts, pos) != Some(TokenView::Pipe) {
        Parsed::Fail { index: pos, expected: Expected::Pipe }
    } else if pattern_of(token_at(ts, pos + 1)) is None {
        Parsed::Fail { index: pos + 1, expected: Expected::Pattern }
    } else if token_at(ts, pos + 2) != Some(TokenView::Arrow) {
        Parsed::Fail { index: pos + 2, expected: Expected::Arrow }
    } else {
        let pattern = pattern_of(token_at(ts, pos + 1))->0;
        match expr_at(ts, pos + 3) {
            Parsed::Fail { index, expected } => Parsed::Fail { index, expected },
            Parsed::Done { value, used } => {
                if token_at(ts, pos + 3 + used) == Some(TokenView::Pipe) {
                    match arms_at(ts, pos + 3 + used) {
                        Parsed::Fail { index, expected } => Parsed::Fail { index, expected },
                        Parsed::Done { value: rest, used: more } => Parsed::Done {
                            value: seq![(pattern, value)] + rest,
                            used: used + more + 3,
                        },
                    }
                } else {
                    Parsed::Done { value: seq![(pattern, value)], used: used + 3 }
                }
            },
        }
    }
}

/// `Program`: the expression that the whole token sequence is.
pub open spec fn program(ts: Seq<TokenView>) -> Parsed<ExprView> {
    match expr_at(ts, 0) {
        Parsed::Fail { index, expected } => Parsed::Fail { index, expected },
        Parsed::Done { value, used } => {
            if used == ts.len() {
                Parsed::Done { value, used }
            } else {
                Parsed::Fail { index: used as int, expected: Expected::EndOfInput }
            }
        },
    }
}

} // verus!
