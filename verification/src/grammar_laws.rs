use crate::grammar::{
    applied_at, args_at, arms_at, assign_at, atom_at, binary_head, call_at, decl_at, expr_at,
    grouped_at, left, match_at, params_at, pattern_of, program, seq_at, starts_atom, token_at,
    unary_head, while_at, Parsed,
};
use crate::token::TokenView;
use vstd::prelude::*;

verus! {

/// Whether the phrase or the fault lies within the tokens: a phrase has at
/// least one token and ends where the tokens end or before, and a fault
/// stands at `pos`, behind it, or at the end of the tokens.
pub open spec fn within<T>(ts: Seq<TokenView>, pos: int, r: Parsed<T>) -> bool {
    match r {
        Parsed::Done { used, .. } => used >= 1 && pos + used <= ts.len(),
        Parsed::Fail { index, .. } => pos <= index <= ts.len(),
    }
}

/// Whether the tokens settle the outcome: the token behind the phrase, or
/// the token of the fault, is one of them.
pub open spec fn settled<T>(ts: Seq<TokenView>, pos: int, r: Parsed<T>) -> bool {
    match r {
        Parsed::Done { used, .. } => pos + used < ts.len(),
        Parsed::Fail { index, .. } => index < ts.len(),
    }
}

/// Whether a fault of a phrase that begins with an identifier stands behind
/// the identifier.
pub open spec fn spares_identifier<T>(ts: Seq<TokenView>, pos: int, r: Parsed<T>) -> bool {
    token_at(ts, pos) is Some && token_at(ts, pos)->0 is Identifier && r is Fail ==> r->index
        > pos
}

/// What holds of the outcome `r` of reading a phrase at `pos`, of which `r2`
/// is the outcome when more tokens follow: it lies within the tokens, and
/// more tokens do not change it once the tokens settle it.
pub open spec fn steady<T>(ts: Seq<TokenView>, pos: int, r: Parsed<T>, r2: Parsed<T>) -> bool {
    &&& within(ts, pos, r)
    &&& settled(ts, pos, r) ==> r2 == r
}

proof fn lemma_token_same(ts: Seq<TokenView>, more: Seq<TokenView>, pos: int)
    requires
        pos < ts.len(),
    ensures
        token_at(ts + more, pos) == token_at(ts, pos),
{
}

proof fn lemma_params(ts: Seq<TokenView>, more: Seq<TokenView>, pos: int)
    requires
        0 <= pos <= ts.len(),
    ensures
        pos + params_at(ts, pos).len() <= ts.len(),
        pos + params_at(ts, pos).len() < ts.len() ==> params_at(ts + more, pos) == params_at(
            ts,
            pos,
        ),
    decreases left(ts, pos),
{
    if pos < ts.len() {
        lemma_token_same(ts, more, pos);
        if token_at(ts, pos)->0 is Identifier {
            lemma_params(ts, more, pos + 1);
        }
    }
}

proof fn lemma_expr(ts: Seq<TokenView>, more: Seq<TokenView>, pos: int)
    requires
        0 <= pos <= ts.len(),
    ensures
        steady(ts, pos, expr_at(ts, pos), expr_at(ts + more, pos)),
        spares_identifier(ts, pos, expr_at(ts, pos)),
    decreases left(ts, pos), 6nat,
{
    if pos < ts.len() {
        lemma_token_same(ts, more, pos);
    }
    if token_at(ts, pos) == Some(TokenView::Decl) {
        lemma_decl(ts, more, pos);
    } else {
        lemma_seq(ts, more, pos);
    }
}

proof fn lemma_decl(ts: Seq<TokenView>, more: Seq<TokenView>, pos: int)
    requires
        0 <= pos < ts.len(),
        token_at(ts, pos) == Some(TokenView::Decl),
    ensures
        steady(ts, pos, decl_at(ts, pos), decl_at(ts + more, pos)),
    decreases left(ts, pos), 5nat,
{
    lemma_token_same(ts, more, pos);
    if pos + 1 < ts.len() {
        lemma_token_same(ts, more, pos + 1);
        if token_at(ts, pos + 1)->0 is Identifier {
            lemma_params(ts, more, pos + 2);
            let params = params_at(ts, pos + 2);
            let arrow = pos + 2 + params.len();
            if arrow < ts.len() {
                lemma_token_same(ts, more, arrow);
                if token_at(ts, arrow) == Some(TokenView::Assign) {
                    lemma_expr(ts, more, arrow + 1);
                    if let Parsed::Done { value, used } = expr_at(ts, arrow + 1) {
                        let inword = arrow + 1 + used;
                        if inword < ts.len() {
                            lemma_token_same(ts, more, inword);
                            if token_at(ts, inword) == Some(TokenView::In) {
                                lemma_expr(ts, more, inword + 1);
                            }
                        }
                    }
                }
            }
        }
    }
}

proof fn lemma_seq(ts: Seq<TokenView>, more: Seq<TokenView>, pos: int)
    requires
        0 <= pos <= ts.len(),
    ensures
        steady(ts, pos, seq_at(ts, pos), seq_at(ts + more, pos)),
        spares_identifier(ts, pos, seq_at(ts, pos)),
    decreases left(ts, pos), 4nat,
{
    lemma_assign(ts, more, pos);
    if let Parsed::Done { value, used } = assign_at(ts, pos) {
        if pos + used < ts.len() {
            lemma_token_same(ts, more, pos + used);
            if token_at(ts, pos + used) == Some(TokenView::Semicolon) {
                lemma_expr(ts, more, pos + used + 1);
            }
        }
    }
}

proof fn lemma_assign(ts: Seq<TokenView>, more: Seq<TokenView>, pos: int)
    requires
        0 <= pos <= ts.len(),
    ensures
        steady(ts, pos, assign_at(ts, pos), assign_at(ts + more, pos)),
        spares_identifier(ts, pos, assign_at(ts, pos)),
    decreases left(ts, pos), 3nat,
{
    if pos < ts.len() {
        lemma_token_same(ts, more, pos);
        if token_at(ts, pos)->0 is Identifier {
            if pos + 1 < ts.len() {
                lemma_token_same(ts, more, pos + 1);
                if token_at(ts, pos + 1) == Some(TokenView::Assign) {
                    lemma_assign(ts, more, pos + 2);
                } else {
                    lemma_call(ts, more, pos);
                }
            } else {
                lemma_call(ts, more, pos);
                lemma_atom(ts, more, pos);
            }
        } else {
            lemma_call(ts, more, pos);
        }
    } else {
        lemma_call(ts, more, pos);
    }
}

proof fn lemma_call(ts: Seq<TokenView>, more: Seq<TokenView>, pos: int)
    requires
        0 <= pos <= ts.len(),
    ensures
        steady(ts, pos, call_at(ts, pos), call_at(ts + more, pos)),
        spares_identifier(ts, pos, call_at(ts, pos)),
    decreases left(ts, pos), 2nat,
{
    if pos < ts.len() {
        lemma_token_same(ts, more, pos);
        let t = token_at(ts, pos)->0;
        if unary_head(t) is Some {
            lemma_atom(ts, more, pos + 1);
        } else if binary_head(t) is Some {
            lemma_atom(ts, more, pos + 1);
            if let Parsed::Done { value, used } = atom_at(ts, pos + 1) {
                lemma_atom(ts, more, pos + 1 + used);
            }
        } else {
            lemma_atom(ts, more, pos);
        }
    }
}

proof fn lemma_args(ts: Seq<TokenView>, more: Seq<TokenView>, pos: int)
    requires
        0 <= pos <= ts.len(),
    ensures
        steady(ts, pos, args_at(ts, pos), args_at(ts + more, pos)),
    decreases left(ts, pos), 1nat,
{
    lemma_atom(ts, more, pos);
    if let Parsed::Done { value, used } = atom_at(ts, pos) {
        if pos + used < ts.len() {
            lemma_token_same(ts, more, pos + used);
            if starts_atom(token_at(ts, pos + used)) {
                lemma_args(ts, more, pos + used);
            }
        }
    }
}

proof fn lemma_atom(ts: Seq<TokenView>, more: Seq<TokenView>, pos: int)
    requires
        0 <= pos <= ts.len(),
    ensures
        steady(ts, pos, atom_at(ts, pos), atom_at(ts + more, pos)),
        spares_identifier(ts, pos, atom_at(ts, pos)),
    decreases left(ts, pos), 0nat,
{
    if pos < ts.len() {
        lemma_token_same(ts, more, pos);
        match token_at(ts, pos)->0 {
            TokenView::ParenL => {
                if pos + 1 < ts.len() {
                    lemma_token_same(ts, more, pos + 1);
                    if token_at(ts, pos + 1)->0 is Identifier {
                        if pos + 2 < ts.len() {
                            lemma_token_same(ts, more, pos + 2);
                            if starts_atom(token_at(ts, pos + 2)) {
                                lemma_applied(ts, more, pos);
                            } else {
                                lemma_grouped(ts, more, pos);
                            }
                        } else {
                            lemma_grouped(ts, more, pos);
                            lemma_expr(ts, more, pos + 1);
                        }
                    } else {
                        lemma_grouped(ts, more, pos);
                    }
                } else {
                    lemma_grouped(ts, more, pos);
                }
            },
            TokenView::While => {
                lemma_while(ts, more, pos);
            },
            TokenView::Match => {
                lemma_match(ts, more, pos);
            },
            _ => {},
        }
    }
}

proof fn lemma_applied(ts: Seq<TokenView>, more: Seq<TokenView>, pos: int)
    requires
        0 <= pos,
        pos + 2 < ts.len(),
        token_at(ts, pos + 1) is Some && token_at(ts, pos + 1)->0 is Identifier,
    ensures
        steady(ts, pos, applied_at(ts, pos), applied_at(ts + more, pos)),
    decreases left(ts, pos + 2), 9nat,
{
    lemma_token_same(ts, more, pos + 1);
    lemma_args(ts, more, pos + 2);
    if let Parsed::Done { value, used } = args_at(ts, pos + 2) {
        if pos + 2 + used < ts.len() {
            lemma_token_same(ts, more, pos + 2 + used);
        }
    }
}

proof fn lemma_grouped(ts: Seq<TokenView>, more: Seq<TokenView>, pos: int)
    requires
        0 <= pos < ts.len(),
    ensures
        steady(ts, pos, grouped_at(ts, pos), grouped_at(ts + more, pos)),
        grouped_at(ts, pos) matches Parsed::Fail { index, .. } ==> index > pos,
    decreases left(ts, pos + 1), 9nat,
{
    lemma_expr(ts, more, pos + 1);
    if let Parsed::Done { value, used } = expr_at(ts, pos + 1) {
        if pos + 1 + used < ts.len() {
            lemma_token_same(ts, more, pos + 1 + used);
        }
    }
}

proof fn lemma_while(ts: Seq<TokenView>, more: Seq<TokenView>, pos: int)
    requires
        0 <= pos < ts.len(),
    ensures
        steady(ts, pos, while_at(ts, pos), while_at(ts + more, pos)),
    decreases left(ts, pos + 1), 9nat,
{
    lemma_expr(ts, more, pos + 1);
    if let Parsed::Done { value, used } = expr_at(ts, pos + 1) {
        if pos + 1 + used < ts.len() {
            lemma_token_same(ts, more, pos + 1 + used);
            if token_at(ts, pos + 1 + used) == Some(TokenView::Do) {
                lemma_expr(ts, more, pos + 2 + used);
                if let Parsed::Done { value: body, used: further } = expr_at(ts, pos + 2 + used) {
                    if pos + 2 + used + further < ts.len() {
                        lemma_token_same(ts, more, pos + 2 + used + further);
                    }
                }
            }
        }
    }
}

proof fn lemma_match(ts: Seq<TokenView>, more: Seq<TokenView>, pos: int)
    requires
        0 <= pos < ts.len(),
    ensures
        steady(ts, pos, match_at(ts, pos), match_at(ts + more, pos)),
    decreases left(ts, pos + 1), 9nat,
{
    lemma_expr(ts, more, pos + 1);
    if let Parsed::Done { value, used } = expr_at(ts, pos + 1) {
        if pos + 1 + used < ts.len() {
            lemma_token_same(ts, more, pos + 1 + used);
            if token_at(ts, pos + 1 + used) == Some(TokenView::With) {
                lemma_arms(ts, more, pos + 2 + used);
            }
        }
    }
}

proof fn lemma_arms(ts: Seq<TokenView>, more: Seq<TokenView>, pos: int)
    requires
        0 <= pos <= ts.len(),
    ensures
        steady(ts, pos, arms_at(ts, pos), arms_at(ts + more, pos)),
    decreases left(ts, pos), 8nat,
{
    if pos < ts.len() {
        lemma_token_same(ts, more, pos);
        if token_at(ts, pos) == Some(TokenView::Pipe) {
            if pos + 1 < ts.len() {
                lemma_token_same(ts, more, pos + 1);
                if pattern_of(token_at(ts, pos + 1)) is Some {
                    if pos + 2 < ts.len() {
                        lemma_token_same(ts, more, pos + 2);
                        if token_at(ts, pos + 2) == Some(TokenView::Arrow) {
                            lemma_expr(ts, more, pos + 3);
                            if let Parsed::Done { value, used } = expr_at(ts, pos + 3) {
                                if pos + 3 + used < ts.len() {
                                    lemma_token_same(ts, more, pos + 3 + used);
                                    if token_at(ts, pos + 3 + used) == Some(TokenView::Pipe) {
                                        lemma_arms(ts, more, pos + 3 + used);
                                    }
                                }
                            }
                        }
                    }
                }
            }
        }
    }
}

/// Faults are first faults: a token that cannot stand where it is cannot
/// stand there whatever tokens follow. Where the tokens `ts` are no program
/// for a fault at one of them, the tokens `ts` with `more` behind them are
/// no program either, for the same fault.
pub proof fn law_fault_is_first(ts: Seq<TokenView>, more: Seq<TokenView>)
    requires
        program(ts) matches Parsed::Fail { index, .. } && index < ts.len(),
    ensures
        program(ts + more) == program(ts),
{
    lemma_expr(ts, more, 0);
    if let Parsed::Done { value, used } = expr_at(ts, 0) {
        lemma_token_same(ts, more, used as int);
    }
}

/// The fault of tokens that are no program stands at one of them or at
/// their end, and a program is made of all of them.
pub proof fn law_fault_is_within(ts: Seq<TokenView>)
    ensures
        match program(ts) {
            Parsed::Done { used, .. } => used == ts.len(),
            Parsed::Fail { index, .. } => 0 <= index <= ts.len(),
        },
{
    lemma_expr(ts, Seq::empty(), 0);
}

} // verus!
