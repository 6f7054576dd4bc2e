use crate::ast::{ExprView, Pattern};
use crate::grammar::{
    applied_at, args_at, arms_at, assign_at, atom_at, binary_head, call_at, closing, decl_at,
    expr_at, grouped_at, match_at, params_at, pattern_of, program, seq_at, starts_atom, token_at,
    unary_head, while_at, Parsed,
};
use crate::token::TokenView;
use vstd::prelude::*;

verus! {

/// The token that is the head of the built-in of one argument of the given
/// name.
pub open spec fn unary_token(head: Seq<char>) -> Option<TokenView> {
    if head == "print"@ {
        Some(TokenView::Print)
    } else if head == "!"@ {
        Some(TokenView::Exclam)
    } else {
        None
    }
}

/// The token that is the head of the built-in of two arguments of the given
/// name.
pub open spec fn binary_token(head: Seq<char>) -> Option<TokenView> {
    if head == "+"@ {
        Some(TokenView::Plus)
    } else if head == "-"@ {
        Some(TokenView::Minus)
    } else if head == "*"@ {
        Some(TokenView::Star)
    } else if head == "/"@ {
        Some(TokenView::Slash)
    } else if head == "%"@ {
        Some(TokenView::Percent)
    } else if head == "<"@ {
        Some(TokenView::Less)
    } else if head == ">"@ {
        Some(TokenView::Greater)
    } else if head == "="@ {
        Some(TokenView::Equals)
    } else if head == "!="@ {
        Some(TokenView::NotEquals)
    } else if head == "&"@ {
        Some(TokenView::Ampersand)
    } else if head == "|"@ {
        Some(TokenView::Pipe)
    } else {
        None
    }
}

/// Whether the expression is a call that is written with the token of its
/// head in front: a built-in with as many arguments as it takes.
pub open spec fn is_head_call(e: ExprView) -> bool {
    e matches ExprView::Call(head, args) && ((args.len() == 1 && unary_token(head) is Some) || (
    args.len() == 2 && binary_token(head) is Some))
}

/// The token of a pattern.
pub open spec fn spell_pattern(p: Pattern) -> TokenView {
    match p {
        Pattern::Literal(n) => TokenView::IntegerLiteral(n),
        Pattern::Wildcard => TokenView::Underscore,
    }
}

/// The tokens of parameters.
pub open spec fn spell_names(names: Seq<Seq<char>>) -> Seq<TokenView> {
    names.map_values(|n: Seq<char>| TokenView::Identifier(n))
}

/// Whether the expression can be written: every call in it has an argument
/// and every match an arm.
pub open spec fn writable(e: ExprView) -> bool
    decreases e,
{
    match e {
        ExprView::Number(_) => true,
        ExprView::Ident(_) => true,
        ExprView::Call(_, args) => args.len() > 0 && forall|i: int|
            0 <= i < args.len() ==> writable(#[trigger] args[i]),
        ExprView::Sequence(first, second) => writable(*first) && writable(*second),
        ExprView::Assign(_, value) => writable(*value),
        ExprView::Decl(_, _, value, body) => writable(*value) && writable(*body),
        ExprView::While(cond, body) => writable(*cond) && writable(*body),
        ExprView::Match(scrutinee, arms) => writable(*scrutinee) && arms.len() > 0 && forall|
            i: int,
        |
            0 <= i < arms.len() ==> writable((#[trigger] arms[i]).1),
    }
}

/// The tokens of an expression where an `Expr` is asked for.
pub open spec fn spell_expr(e: ExprView) -> Seq<TokenView>
    decreases e, 5nat,
{
    if e is Decl || e is Sequence {
        spell_inner(e)
    } else {
        spell_assign(e)
    }
}

/// The tokens of an expression where an `AssignExpr` is asked for.
pub open spec fn spell_assign(e: ExprView) -> Seq<TokenView>
    decreases e, 4nat,
{
    if e is Assign {
        spell_inner(e)
    } else {
        spell_call(e)
    }
}

/// The tokens of an expression where a `CallExpr` is asked for.
pub open spec fn spell_call(e: ExprView) -> Seq<TokenView>
    decreases e, 3nat,
{
    if is_head_call(e) {
        spell_inner(e)
    } else {
        spell_atom(e)
    }
}

/// The tokens of an expression where an `AtomExpr` is asked for: a
/// declaration, a sequence, an assignment, a call with the token of its
/// head in front and a match stand in parentheses.
pub open spec fn spell_atom(e: ExprView) -> Seq<TokenView>
    decreases e, 2nat,
{
    match e {
        ExprView::Number(n) => seq![TokenView::IntegerLiteral(n)],
        ExprView::Ident(name) => seq![TokenView::Identifier(name)],
        ExprView::While(cond, body) => seq![TokenView::While] + spell_expr(*cond)
            + seq![TokenView::Do] + spell_expr(*body) + seq![TokenView::Done],
        ExprView::Call(head, args) => if is_head_call(e) {
            seq![TokenView::ParenL] + spell_inner(e) + seq![TokenView::ParenR]
        } else {
            seq![TokenView::ParenL, TokenView::Identifier(head)] + spell_atoms(args, 0)
                + seq![TokenView::ParenR]
        },
        _ => seq![TokenView::ParenL] + spell_inner(e) + seq![TokenView::ParenR],
    }
}

/// The tokens of a declaration, a sequence, an assignment, a call with the
/// token of its head in front or a match, without parentheses around them.
pub open spec fn spell_inner(e: ExprView) -> Seq<TokenView>
    decreases e, 1nat,
{
    match e {
        ExprView::Decl(name, params, value, body) => seq![
            TokenView::Decl,
            TokenView::Identifier(name),
        ] + spell_names(params) + seq![TokenView::Assign] + spell_expr(*value)
            + seq![TokenView::In] + spell_expr(*body),
        ExprView::Sequence(first, second) => spell_assign(*first) + seq![TokenView::Semicolon]
            + spell_expr(*second),
        ExprView::Assign(name, value) => seq![TokenView::Identifier(name), TokenView::Assign]
            + spell_assign(*value),
        ExprView::Call(head, args) => if args.len() == 1 && unary_token(head) is Some {
            seq![unary_token(head)->0] + spell_atom(args[0])
        } else if args.len() == 2 && binary_token(head) is Some {
            seq![binary_token(head)->0] + spell_atom(args[0]) + spell_atom(args[1])
        } else {
            Seq::empty()
        },
        ExprView::Match(scrutinee, arms) => seq![TokenView::Match] + spell_expr(*scrutinee)
            + seq![TokenView::With] + spell_arms(arms, 0),
        _ => Seq::empty(),
    }
}

/// The tokens of the arguments from the argument `i` on.
pub open spec fn spell_atoms(args: Seq<ExprView>, i: int) -> Seq<TokenView>
    decreases args, args.len() - i,
{
    if i < 0 || i >= args.len() {
        Seq::empty()
    } else {
        spell_atom(args[i]) + spell_atoms(args, i + 1)
    }
}

/// The tokens of the arms from the arm `i` on.
pub open spec fn spell_arms(arms: Seq<(Pattern, ExprView)>, i: int) -> Seq<TokenView>
    decreases arms, arms.len() - i,
{
    if i < 0 || i >= arms.len() {
        Seq::empty()
    } else {
        seq![TokenView::Pipe, spell_pattern(arms[i].0), TokenView::Arrow] + spell_expr(arms[i].1)
            + spell_arms(arms, i + 1)
    }
}

/// Whether the tokens `x` stand in `ts` from `pos` on.
pub open spec fn stands(ts: Seq<TokenView>, pos: int, x: Seq<TokenView>) -> bool {
    &&& 0 <= pos
    &&& pos + x.len() <= ts.len()
    &&& forall|k: int| 0 <= k < x.len() ==> ts[pos + k] == #[trigger] x[k]
}

/// Whether the token at `pos` lets an expression end in front of it: it is
/// not `;` and not `<-`.
pub open spec fn ends_expr(ts: Seq<TokenView>, pos: int) -> bool {
    token_at(ts, pos) != Some(TokenView::Semicolon) && token_at(ts, pos) != Some(
        TokenView::Assign,
    )
}

proof fn lemma_stands_split(ts: Seq<TokenView>, pos: int, a: Seq<TokenView>, b: Seq<TokenView>)
    requires
        stands(ts, pos, a + b),
    ensures
        stands(ts, pos, a),
        stands(ts, pos + a.len(), b),
{
    assert forall|k: int| 0 <= k < a.len() implies ts[pos + k] == #[trigger] a[k] by {
        assert((a + b)[k] == a[k]);
    }
    assert forall|k: int| 0 <= k < b.len() implies ts[pos + a.len() + k] == #[trigger] b[k] by {
        assert((a + b)[a.len() + k] == b[k]);
    }
}

proof fn lemma_stands_one(ts: Seq<TokenView>, pos: int, t: TokenView)
    requires
        stands(ts, pos, seq![t]),
    ensures
        token_at(ts, pos) == Some(t),
{
    assert(seq![t][0] == t);
}

proof fn lemma_stands_two(ts: Seq<TokenView>, pos: int, t: TokenView, u: TokenView)
    requires
        stands(ts, pos, seq![t, u]),
    ensures
        token_at(ts, pos) == Some(t),
        token_at(ts, pos + 1) == Some(u),
{
    assert(seq![t, u][0] == t);
    assert(seq![t, u][1] == u);
}

/// Whether the token at `pos` begins an atom and nothing else: it is no
/// head of a built-in and not `decl`.
pub open spec fn begins_atom(ts: Seq<TokenView>, pos: int) -> bool {
    &&& starts_atom(token_at(ts, pos))
    &&& unary_head(token_at(ts, pos)->0) is None
    &&& binary_head(token_at(ts, pos)->0) is None
}

/// Whether the token at `pos` begins a call with the token of its head in
/// front.
pub open spec fn begins_call(ts: Seq<TokenView>, pos: int) -> bool {
    &&& token_at(ts, pos) is Some
    &&& unary_head(token_at(ts, pos)->0) is Some || binary_head(token_at(ts, pos)->0) is Some
}

/// Whether an identifier at `pos`, if one stands there, is all of the
/// phrase of `n` tokens that begins there.
pub open spec fn lone_identifier(ts: Seq<TokenView>, pos: int, n: nat) -> bool {
    token_at(ts, pos) is Some && token_at(ts, pos)->0 is Identifier ==> n == 1
}

proof fn lemma_heads(head: Seq<char>)
    ensures
        unary_token(head) matches Some(t) ==> unary_head(t) == Some(head),
        binary_token(head) matches Some(t) ==> binary_head(t) == Some(head) && unary_head(t)
            is None,
{
}

/// Parameters are read back.
proof fn lemma_read_names(names: Seq<Seq<char>>, i: int, ts: Seq<TokenView>, pos: int)
    requires
        0 <= i <= names.len(),
        stands(ts, pos, spell_names(names).skip(i)),
        !(token_at(ts, pos + names.len() - i) is Some && token_at(
            ts,
            pos + names.len() - i,
        )->0 is Identifier),
    ensures
        params_at(ts, pos) == names.skip(i),
    decreases names.len() - i,
{
    let rest = spell_names(names).skip(i);
    if i < names.len() {
        assert(rest[0] == TokenView::Identifier(names[i]));
        assert(ts[pos + 0] == rest[0]);
        assert forall|k: int| 0 <= k < spell_names(names).skip(i + 1).len() implies ts[pos + 1
            + k] == #[trigger] spell_names(names).skip(i + 1)[k] by {
            assert(rest[k + 1] == spell_names(names).skip(i + 1)[k]);
            assert(ts[pos + (k + 1)] == rest[k + 1]);
        }
        lemma_read_names(names, i + 1, ts, pos + 1);
        assert(seq![names[i]] + names.skip(i + 1) =~= names.skip(i));
    } else {
        assert(names.skip(i) =~= Seq::<Seq<char>>::empty());
    }
}

/// An expression that is written where an `Expr` is asked for is read back,
/// if no `;` and no `<-` stands behind it.
pub proof fn lemma_read_expr(e: ExprView, ts: Seq<TokenView>, pos: int)
    requires
        writable(e),
        stands(ts, pos, spell_expr(e)),
        ends_expr(ts, pos + spell_expr(e).len()),
    ensures
        expr_at(ts, pos) == (Parsed::Done { value: e, used: spell_expr(e).len() }),
        spell_expr(e).len() >= 1,
    decreases e, 9nat,
{
    if e is Decl {
        lemma_read_decl(e, ts, pos);
    } else if e is Sequence {
        lemma_read_sequence(e, ts, pos);
    } else {
        lemma_read_assign(e, ts, pos);
    }
}

/// An expression that is written where an `AssignExpr` is asked for is
/// read back, if no `<-` stands behind it.
pub proof fn lemma_read_assign(e: ExprView, ts: Seq<TokenView>, pos: int)
    requires
        writable(e),
        !(e is Decl) && !(e is Sequence),
        stands(ts, pos, spell_assign(e)),
        token_at(ts, pos + spell_assign(e).len()) != Some(TokenView::Assign),
    ensures
        assign_at(ts, pos) == (Parsed::Done { value: e, used: spell_assign(e).len() }),
        spell_assign(e).len() >= 1,
        token_at(ts, pos) is Some,
        token_at(ts, pos) != Some(TokenView::Decl),
        token_at(ts, pos + spell_assign(e).len()) != Some(TokenView::Semicolon) ==> seq_at(ts, pos)
            == assign_at(ts, pos) && expr_at(ts, pos) == assign_at(ts, pos),
    decreases e, 8nat,
{
    if e is Assign {
        lemma_read_assignment(e, ts, pos);
    } else {
        lemma_read_call(e, ts, pos);
    }
}

/// An expression that is written where a `CallExpr` is asked for is read
/// back.
pub proof fn lemma_read_call(e: ExprView, ts: Seq<TokenView>, pos: int)
    requires
        writable(e),
        !(e is Decl) && !(e is Sequence) && !(e is Assign),
        stands(ts, pos, spell_call(e)),
    ensures
        call_at(ts, pos) == (Parsed::Done { value: e, used: spell_call(e).len() }),
        spell_call(e).len() >= 1,
        token_at(ts, pos) is Some,
        token_at(ts, pos) != Some(TokenView::Decl),
        lone_identifier(ts, pos, spell_call(e).len()),
    decreases e, 7nat,
{
    if is_head_call(e) {
        lemma_read_head_call(e, ts, pos);
    } else {
        lemma_read_atom(e, ts, pos);
    }
}

/// An expression that is written where an `AtomExpr` is asked for is read
/// back.
pub proof fn lemma_read_atom(e: ExprView, ts: Seq<TokenView>, pos: int)
    requires
        writable(e),
        stands(ts, pos, spell_atom(e)),
    ensures
        atom_at(ts, pos) == (Parsed::Done { value: e, used: spell_atom(e).len() }),
        spell_atom(e).len() >= 1,
        begins_atom(ts, pos),
        token_at(ts, pos) != Some(TokenView::Match),
        lone_identifier(ts, pos, spell_atom(e).len()),
    decreases e, 6nat,
{
    match e {
        ExprView::Number(n) => {
            lemma_stands_one(ts, pos, TokenView::IntegerLiteral(n));
        },
        ExprView::Ident(name) => {
            lemma_stands_one(ts, pos, TokenView::Identifier(name));
        },
        ExprView::While(_, _) => {
            lemma_read_while(e, ts, pos);
        },
        ExprView::Call(_, _) => {
            if is_head_call(e) {
                lemma_read_grouped(e, ts, pos);
            } else {
                lemma_read_applied(e, ts, pos);
            }
        },
        _ => {
            lemma_read_grouped(e, ts, pos);
        },
    }
}

proof fn lemma_read_while(e: ExprView, ts: Seq<TokenView>, pos: int)
    requires
        e is While,
        writable(e),
        stands(ts, pos, spell_atom(e)),
    ensures
        atom_at(ts, pos) == (Parsed::Done { value: e, used: spell_atom(e).len() }),
        token_at(ts, pos) == Some(TokenView::While),
    decreases e, 3nat,
{
    let cond = *e->While_0;
    let body = *e->While_1;
    let a = seq![TokenView::While];
    let c = spell_expr(cond);
    let d = seq![TokenView::Do];
    let b = spell_expr(body);
    let z = seq![TokenView::Done];
    lemma_stands_split(ts, pos, a + c + d + b, z);
    lemma_stands_split(ts, pos, a + c + d, b);
    lemma_stands_split(ts, pos, a + c, d);
    lemma_stands_split(ts, pos, a, c);
    lemma_stands_one(ts, pos, TokenView::While);
    lemma_stands_one(ts, pos + 1 + c.len(), TokenView::Do);
    lemma_stands_one(ts, pos + 2 + c.len() + b.len(), TokenView::Done);
    lemma_read_expr(cond, ts, pos + 1);
    lemma_read_expr(body, ts, pos + 2 + c.len());
    assert(while_at(ts, pos) == (Parsed::Done { value: e, used: spell_atom(e).len() }));
}

proof fn lemma_read_applied(e: ExprView, ts: Seq<TokenView>, pos: int)
    requires
        e is Call,
        !is_head_call(e),
        writable(e),
        stands(ts, pos, spell_atom(e)),
    ensures
        atom_at(ts, pos) == (Parsed::Done { value: e, used: spell_atom(e).len() }),
        token_at(ts, pos) == Some(TokenView::ParenL),
    decreases e, 3nat,
{
    let head = e->Call_0;
    let args = e->Call_1;
    let a = seq![TokenView::ParenL, TokenView::Identifier(head)];
    let x = spell_atoms(args, 0);
    let z = seq![TokenView::ParenR];
    lemma_stands_split(ts, pos, a + x, z);
    lemma_stands_split(ts, pos, a, x);
    lemma_stands_two(ts, pos, TokenView::ParenL, TokenView::Identifier(head));
    lemma_stands_one(ts, pos + 2 + x.len(), TokenView::ParenR);
    lemma_read_atoms(args, 0, ts, pos + 2);
    assert(args.skip(0) =~= args);
    assert(applied_at(ts, pos) == (Parsed::Done { value: e, used: spell_atom(e).len() }));
}

/// Arguments are read back, if no atom begins behind them.
proof fn lemma_read_atoms(args: Seq<ExprView>, i: int, ts: Seq<TokenView>, pos: int)
    requires
        0 <= i < args.len(),
        forall|k: int| 0 <= k < args.len() ==> writable(#[trigger] args[k]),
        stands(ts, pos, spell_atoms(args, i)),
        !starts_atom(token_at(ts, pos + spell_atoms(args, i).len())),
    ensures
        args_at(ts, pos) == (Parsed::Done { value: args.skip(i), used: spell_atoms(args, i).len() }),
        starts_atom(token_at(ts, pos)),
        spell_atoms(args, i).len() >= 1,
    decreases args, args.len() - i,
{
    let a = spell_atom(args[i]);
    let rest = spell_atoms(args, i + 1);
    lemma_stands_split(ts, pos, a, rest);
    lemma_read_atom(args[i], ts, pos);
    if i + 1 < args.len() {
        lemma_read_atoms(args, i + 1, ts, pos + a.len());
        assert(seq![args[i]] + args.skip(i + 1) =~= args.skip(i));
    } else {
        assert(rest.len() == 0);
        assert(seq![args[i]] =~= args.skip(i));
    }
}

/// An expression in parentheses is read back.
proof fn lemma_read_grouped(e: ExprView, ts: Seq<TokenView>, pos: int)
    requires
        e is Decl || e is Sequence || e is Assign || e is Match || is_head_call(e),
        writable(e),
        stands(ts, pos, seq![TokenView::ParenL] + spell_inner(e) + seq![TokenView::ParenR]),
    ensures
        atom_at(ts, pos) == (Parsed::Done { value: e, used: spell_inner(e).len() + 2 }),
        token_at(ts, pos) == Some(TokenView::ParenL),
    decreases e, 5nat,
{
    let a = seq![TokenView::ParenL];
    let x = spell_inner(e);
    let z = seq![TokenView::ParenR];
    lemma_stands_split(ts, pos, a + x, z);
    lemma_stands_split(ts, pos, a, x);
    lemma_stands_one(ts, pos, TokenView::ParenL);
    lemma_stands_one(ts, pos + 1 + x.len(), TokenView::ParenR);
    lemma_read_bare(e, ts, pos + 1);
    assert(grouped_at(ts, pos) == (Parsed::Done { value: e, used: x.len() + 2 }));
}

/// A declaration, a sequence, an assignment, a call with the token of its
/// head in front or a match, written without parentheses, is read back as
/// an expression, if none of `;`, `<-` and `|` stands behind it.
proof fn lemma_read_bare(e: ExprView, ts: Seq<TokenView>, pos: int)
    requires
        e is Decl || e is Sequence || e is Assign || e is Match || is_head_call(e),
        writable(e),
        stands(ts, pos, spell_inner(e)),
        ends_expr(ts, pos + spell_inner(e).len()),
        token_at(ts, pos + spell_inner(e).len()) != Some(TokenView::Pipe),
    ensures
        expr_at(ts, pos) == (Parsed::Done { value: e, used: spell_inner(e).len() }),
        spell_inner(e).len() >= 1,
        token_at(ts, pos) is Some,
        !(token_at(ts, pos)->0 is Identifier && starts_atom(token_at(ts, pos + 1))),
    decreases e, 4nat,
{
    if e is Decl {
        lemma_read_decl(e, ts, pos);
    } else if e is Sequence {
        lemma_read_sequence(e, ts, pos);
    } else if e is Assign {
        lemma_read_assignment(e, ts, pos);
    } else if e is Match {
        lemma_read_match(e, ts, pos);
    } else {
        lemma_read_head_call(e, ts, pos);
    }
}

proof fn lemma_read_decl(e: ExprView, ts: Seq<TokenView>, pos: int)
    requires
        e is Decl,
        writable(e),
        stands(ts, pos, spell_inner(e)),
        ends_expr(ts, pos + spell_inner(e).len()),
    ensures
        expr_at(ts, pos) == (Parsed::Done { value: e, used: spell_inner(e).len() }),
        spell_inner(e).len() >= 1,
        token_at(ts, pos) == Some(TokenView::Decl),
    decreases e, 3nat,
{
    let name = e->Decl_0;
    let params = e->Decl_1;
    let value = *e->Decl_2;
    let body = *e->Decl_3;
    let a = seq![TokenView::Decl, TokenView::Identifier(name)];
    let p = spell_names(params);
    let w = seq![TokenView::Assign];
    let v = spell_expr(value);
    let i = seq![TokenView::In];
    let b = spell_expr(body);
    lemma_stands_split(ts, pos, a + p + w + v + i, b);
    lemma_stands_split(ts, pos, a + p + w + v, i);
    lemma_stands_split(ts, pos, a + p + w, v);
    lemma_stands_split(ts, pos, a + p, w);
    lemma_stands_split(ts, pos, a, p);
    lemma_stands_two(ts, pos, TokenView::Decl, TokenView::Identifier(name));
    lemma_stands_one(ts, pos + 2 + p.len(), TokenView::Assign);
    lemma_stands_one(ts, pos + 3 + p.len() + v.len(), TokenView::In);
    assert(p.skip(0) =~= p);
    assert(params.skip(0) =~= params);
    lemma_read_names(params, 0, ts, pos + 2);
    lemma_read_expr(value, ts, pos + 3 + p.len());
    lemma_read_expr(body, ts, pos + 4 + p.len() + v.len());
    assert(decl_at(ts, pos) == (Parsed::Done { value: e, used: spell_inner(e).len() }));
}

proof fn lemma_read_sequence(e: ExprView, ts: Seq<TokenView>, pos: int)
    requires
        e is Sequence,
        writable(e),
        stands(ts, pos, spell_inner(e)),
        ends_expr(ts, pos + spell_inner(e).len()),
    ensures
        expr_at(ts, pos) == (Parsed::Done { value: e, used: spell_inner(e).len() }),
        spell_inner(e).len() >= 1,
        token_at(ts, pos) is Some,
        !(token_at(ts, pos)->0 is Identifier && starts_atom(token_at(ts, pos + 1))),
    decreases e, 3nat,
{
    let first = *e->Sequence_0;
    let second = *e->Sequence_1;
    let a = spell_assign(first);
    let m = seq![TokenView::Semicolon];
    let b = spell_expr(second);
    lemma_stands_split(ts, pos, a + m, b);
    lemma_stands_split(ts, pos, a, m);
    lemma_stands_one(ts, pos + a.len(), TokenView::Semicolon);
    lemma_read_first(first, ts, pos);
    lemma_read_expr(second, ts, pos + a.len() + 1);
    assert(seq_at(ts, pos) == (Parsed::Done { value: e, used: spell_inner(e).len() }));
}

/// The first expression of a sequence is read back where an `AssignExpr`
/// is asked for; a declaration or a sequence stands there in parentheses.
proof fn lemma_read_first(e: ExprView, ts: Seq<TokenView>, pos: int)
    requires
        writable(e),
        stands(ts, pos, spell_assign(e)),
        token_at(ts, pos + spell_assign(e).len()) == Some(TokenView::Semicolon),
    ensures
        assign_at(ts, pos) == (Parsed::Done { value: e, used: spell_assign(e).len() }),
        spell_assign(e).len() >= 1,
        token_at(ts, pos) is Some,
        token_at(ts, pos) != Some(TokenView::Decl),
        !(token_at(ts, pos)->0 is Identifier && starts_atom(token_at(ts, pos + 1))),
    decreases e, 10nat,
{
    if e is Decl || e is Sequence {
        lemma_read_in_parentheses(e, ts, pos);
    } else {
        lemma_read_assign(e, ts, pos);
        if e is Assign {
            lemma_read_assignment(e, ts, pos);
        } else {
            lemma_read_call(e, ts, pos);
        }
    }
}

/// A declaration or a sequence in parentheses is read back where an
/// `AssignExpr` is asked for.
proof fn lemma_read_in_parentheses(e: ExprView, ts: Seq<TokenView>, pos: int)
    requires
        e is Decl || e is Sequence,
        writable(e),
        stands(ts, pos, spell_assign(e)),
    ensures
        assign_at(ts, pos) == (Parsed::Done { value: e, used: spell_assign(e).len() }),
        spell_assign(e).len() >= 1,
        token_at(ts, pos) == Some(TokenView::ParenL),
    decreases e, 7nat,
{
    assert(spell_assign(e) == spell_call(e));
    assert(spell_call(e) == spell_atom(e));
    lemma_read_atom(e, ts, pos);
    lemma_read_grouped(e, ts, pos);
    assert(call_at(ts, pos) == atom_at(ts, pos));
    assert(assign_at(ts, pos) == call_at(ts, pos));
}

proof fn lemma_read_assignment(e: ExprView, ts: Seq<TokenView>, pos: int)
    requires
        e is Assign,
        writable(e),
        stands(ts, pos, spell_inner(e)),
        token_at(ts, pos + spell_inner(e).len()) != Some(TokenView::Assign),
    ensures
        assign_at(ts, pos) == (Parsed::Done { value: e, used: spell_inner(e).len() }),
        spell_inner(e).len() >= 1,
        token_at(ts, pos) is Some,
        token_at(ts, pos)->0 is Identifier,
        token_at(ts, pos + 1) == Some(TokenView::Assign),
        token_at(ts, pos + spell_inner(e).len()) != Some(TokenView::Semicolon) ==> seq_at(ts, pos)
            == assign_at(ts, pos) && expr_at(ts, pos) == assign_at(ts, pos),
    decreases e, 3nat,
{
    let name = e->Assign_0;
    let value = *e->Assign_1;
    let a = seq![TokenView::Identifier(name), TokenView::Assign];
    let v = spell_assign(value);
    lemma_stands_split(ts, pos, a, v);
    lemma_stands_two(ts, pos, TokenView::Identifier(name), TokenView::Assign);
    lemma_read_value(value, ts, pos + 2);
}

/// The value of an assignment is read back where an `AssignExpr` is asked
/// for; a declaration or a sequence stands there in parentheses.
proof fn lemma_read_value(e: ExprView, ts: Seq<TokenView>, pos: int)
    requires
        writable(e),
        stands(ts, pos, spell_assign(e)),
        token_at(ts, pos + spell_assign(e).len()) != Some(TokenView::Assign),
    ensures
        assign_at(ts, pos) == (Parsed::Done { value: e, used: spell_assign(e).len() }),
        spell_assign(e).len() >= 1,
    decreases e, 10nat,
{
    if e is Decl || e is Sequence {
        lemma_read_in_parentheses(e, ts, pos);
    } else {
        lemma_read_assign(e, ts, pos);
    }
}

proof fn lemma_read_head_call(e: ExprView, ts: Seq<TokenView>, pos: int)
    requires
        is_head_call(e),
        writable(e),
        stands(ts, pos, spell_inner(e)),
    ensures
        call_at(ts, pos) == (Parsed::Done { value: e, used: spell_inner(e).len() }),
        spell_inner(e).len() >= 1,
        begins_call(ts, pos),
        token_at(ts, pos) != Some(TokenView::Decl),
        !(token_at(ts, pos)->0 is Identifier),
        token_at(ts, pos + spell_inner(e).len()) != Some(TokenView::Semicolon) ==> seq_at(ts, pos)
            == call_at(ts, pos) && expr_at(ts, pos) == call_at(ts, pos),
    decreases e, 3nat,
{
    let head = e->Call_0;
    let args = e->Call_1;
    lemma_heads(head);
    if args.len() == 1 && unary_token(head) is Some {
        let t = unary_token(head)->0;
        let a = spell_atom(args[0]);
        lemma_stands_split(ts, pos, seq![t], a);
        lemma_stands_one(ts, pos, t);
        lemma_read_atom(args[0], ts, pos + 1);
        assert(seq![args[0]] =~= args);
    } else {
        let t = binary_token(head)->0;
        let a = spell_atom(args[0]);
        let b = spell_atom(args[1]);
        lemma_stands_split(ts, pos, seq![t] + a, b);
        lemma_stands_split(ts, pos, seq![t], a);
        lemma_stands_one(ts, pos, t);
        lemma_read_atom(args[0], ts, pos + 1);
        lemma_read_atom(args[1], ts, pos + 1 + a.len());
        assert(seq![args[0], args[1]] =~= args);
    }
}

proof fn lemma_read_match(e: ExprView, ts: Seq<TokenView>, pos: int)
    requires
        e is Match,
        writable(e),
        stands(ts, pos, spell_inner(e)),
        ends_expr(ts, pos + spell_inner(e).len()),
        token_at(ts, pos + spell_inner(e).len()) != Some(TokenView::Pipe),
    ensures
        expr_at(ts, pos) == (Parsed::Done { value: e, used: spell_inner(e).len() }),
        spell_inner(e).len() >= 1,
        token_at(ts, pos) == Some(TokenView::Match),
    decreases e, 3nat,
{
    let scrutinee = *e->Match_0;
    let arms = e->Match_1;
    let a = seq![TokenView::Match];
    let s = spell_expr(scrutinee);
    let w = seq![TokenView::With];
    let x = spell_arms(arms, 0);
    lemma_stands_split(ts, pos, a + s + w, x);
    lemma_stands_split(ts, pos, a + s, w);
    lemma_stands_split(ts, pos, a, s);
    lemma_stands_one(ts, pos, TokenView::Match);
    lemma_stands_one(ts, pos + 1 + s.len(), TokenView::With);
    lemma_read_expr(scrutinee, ts, pos + 1);
    lemma_read_arms(arms, 0, ts, pos + 2 + s.len());
    assert(arms.skip(0) =~= arms);
    assert(match_at(ts, pos) == (Parsed::Done { value: e, used: spell_inner(e).len() }));
    assert(atom_at(ts, pos) == match_at(ts, pos));
    assert(call_at(ts, pos) == atom_at(ts, pos));
    assert(assign_at(ts, pos) == call_at(ts, pos));
    assert(seq_at(ts, pos) == assign_at(ts, pos));
}

/// Arms are read back, if none of `;`, `<-` and `|` stands behind them.
proof fn lemma_read_arms(arms: Seq<(Pattern, ExprView)>, i: int, ts: Seq<TokenView>, pos: int)
    requires
        0 <= i < arms.len(),
        forall|k: int| 0 <= k < arms.len() ==> writable((#[trigger] arms[k]).1),
        stands(ts, pos, spell_arms(arms, i)),
        ends_expr(ts, pos + spell_arms(arms, i).len()),
        token_at(ts, pos + spell_arms(arms, i).len()) != Some(TokenView::Pipe),
    ensures
        arms_at(ts, pos) == (Parsed::Done { value: arms.skip(i), used: spell_arms(arms, i).len() }),
        token_at(ts, pos) == Some(TokenView::Pipe),
    decreases arms, arms.len() - i,
{
    let a = seq![TokenView::Pipe, spell_pattern(arms[i].0), TokenView::Arrow];
    let b = spell_expr(arms[i].1);
    let rest = spell_arms(arms, i + 1);
    lemma_stands_split(ts, pos, a + b, rest);
    lemma_stands_split(ts, pos, a, b);
    assert(a[0] == TokenView::Pipe && a[1] == spell_pattern(arms[i].0) && a[2]
        == TokenView::Arrow);
    assert(ts[pos + 0] == a[0] && ts[pos + 1] == a[1] && ts[pos + 2] == a[2]);
    assert(pattern_of(token_at(ts, pos + 1)) == Some(arms[i].0));
    if i + 1 < arms.len() {
        lemma_read_arms(arms, i + 1, ts, pos + 3 + b.len());
        lemma_read_expr(arms[i].1, ts, pos + 3);
        assert(seq![arms[i]] + arms.skip(i + 1) =~= arms.skip(i));
    } else {
        assert(rest.len() == 0);
        lemma_read_expr(arms[i].1, ts, pos + 3);
        assert(seq![arms[i]] =~= arms.skip(i));
    }
}

/// What is written is read back: the tokens of an expression are a
/// program, and the program is the expression.
pub proof fn law_written_is_read(e: ExprView)
    requires
        writable(e),
    ensures
        program(spell_expr(e)) == (Parsed::Done { value: e, used: spell_expr(e).len() }),
{
    let ts = spell_expr(e);
    assert(stands(ts, 0, ts));
    lemma_read_expr(e, ts, 0);
}

} // verus!
