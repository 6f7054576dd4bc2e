use vstd::prelude::*;

verus! {

/// A pattern of a match arm.
#[derive(Debug, Clone, Copy, PartialEq, Eq, Structural)]
pub enum Pattern {
    /// Matches the given number and no other.
    Literal(i64),
    /// Matches every number.
    Wildcard,
}

impl Pattern {
    /// Whether the pattern matches the number `v`.
    pub open spec fn admits(self, v: i64) -> bool {
        match self {
            Pattern::Literal(k) => k == v,
            Pattern::Wildcard => true,
        }
    }
}

/// An expression of the language. Every expression has a 64-bit signed
/// integer as its value.
#[derive(Debug)]
pub enum Expr {
    /// A literal.
    Number(i64),
    /// The value of a variable.
    Ident(String),
    /// A call in prefix form: the name of a built-in and its arguments.
    Call(String, Vec<Expr>),
    /// Two expressions in a row; the value is that of the second.
    Sequence(Box<Expr>, Box<Expr>),
    /// A store into a variable that is in scope.
    Assign(String, Box<Expr>),
    /// A new variable, its parameters (none in the present language), its
    /// first value and the expression in which it is in scope.
    Decl(String, Vec<String>, Box<Expr>, Box<Expr>),
    /// A loop: its condition and its body.
    While(Box<Expr>, Box<Expr>),
    /// A choice: the scrutinee and the arms, in order.
    Match(Box<Expr>, Vec<(Pattern, Expr)>),
}

/// The mathematical value of an [`Expr`]: the same tree over sequences.
pub ghost enum ExprView {
    Number(i64),
    Ident(Seq<char>),
    Call(Seq<char>, Seq<ExprView>),
    Sequence(Box<ExprView>, Box<ExprView>),
    Assign(Seq<char>, Box<ExprView>),
    Decl(Seq<char>, Seq<Seq<char>>, Box<ExprView>, Box<ExprView>),
    While(Box<ExprView>, Box<ExprView>),
    Match(Box<ExprView>, Seq<(Pattern, ExprView)>),
}

/// The value of an expression.
pub open spec fn expr_view(e: Expr) -> ExprView
    decreases e,
{
    match e {
        Expr::Number(n) => ExprView::Number(n),
        Expr::Ident(name) => ExprView::Ident(name@),
        Expr::Call(head, args) => ExprView::Call(head@, exprs_view(args@)),
        Expr::Sequence(first, second) => ExprView::Sequence(
            Box::new(expr_view(*first)),
            Box::new(expr_view(*second)),
        ),
        Expr::Assign(name, value) => ExprView::Assign(name@, Box::new(expr_view(*value))),
        Expr::Decl(name, params, value, body) => ExprView::Decl(
            name@,
            names_view(params@),
            Box::new(expr_view(*value)),
            Box::new(expr_view(*body)),
        ),
        Expr::While(cond, body) => ExprView::While(
            Box::new(expr_view(*cond)),
            Box::new(expr_view(*body)),
        ),
        Expr::Match(scrutinee, arms) => ExprView::Match(
            Box::new(expr_view(*scrutinee)),
            arms_view(arms@),
        ),
    }
}

/// The values of a sequence of expressions, in order.
pub open spec fn exprs_view(es: Seq<Expr>) -> Seq<ExprView>
    decreases es,
{
    Seq::new(
        es.len(),
        |i: int|
            if 0 <= i < es.len() {
                expr_view(es[i])
            } else {
                ExprView::Number(0)
            },
    )
}

/// The values of a sequence of match arms, in order.
pub open spec fn arms_view(arms: Seq<(Pattern, Expr)>) -> Seq<(Pattern, ExprView)>
    decreases arms,
{
    Seq::new(
        arms.len(),
        |i: int|
            if 0 <= i < arms.len() {
                (arms[i].0, expr_view(arms[i].1))
            } else {
                (Pattern::Wildcard, ExprView::Number(0))
            },
    )
}

/// The values of a sequence of names, in order.
pub open spec fn names_view(names: Seq<String>) -> Seq<Seq<char>> {
    names.map_values(|s: String| s@)
}

impl View for Expr {
    type V = ExprView;

    open spec fn view(&self) -> ExprView {
        expr_view(*self)
    }
}

pub proof fn lemma_exprs_view_push(es: Seq<Expr>, e: Expr)
    ensures
        exprs_view(es.push(e)) == exprs_view(es).push(e@),
{
    assert(exprs_view(es.push(e)) =~= exprs_view(es).push(e@));
}

pub proof fn lemma_arms_view_push(arms: Seq<(Pattern, Expr)>, pattern: Pattern, e: Expr)
    ensures
        arms_view(arms.push((pattern, e))) == arms_view(arms).push((pattern, e@)),
{
    assert(arms_view(arms.push((pattern, e))) =~= arms_view(arms).push((pattern, e@)));
}

pub proof fn lemma_names_view_push(names: Seq<String>, name: String)
    ensures
        names_view(names.push(name)) == names_view(names).push(name@),
{
    assert(names_view(names.push(name)) =~= names_view(names).push(name@));
}

} // verus!
