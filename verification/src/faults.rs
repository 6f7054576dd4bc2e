use crate::ast::{ExprView, Pattern};
use crate::ir::{FunctionView, Operand};
use crate::lower::{
    binary_op, has_wildcard, lookup, lower, lower_arms, lower_program, predicate_of, LowerError,
    Lowering,
};
use vstd::prelude::*;

verus! {

/// The first of two faults.
pub open spec fn or_else(first: Option<LowerError>, second: Option<LowerError>) -> Option<
    LowerError,
> {
    match first {
        Some(fault) => Some(fault),
        None => second,
    }
}

/// The first fault of an expression in the order of evaluation, where the
/// variables of `scope` are in scope: a variable that is read or assigned
/// and is not in scope, a call of what is no built-in or of a built-in with
/// another number of arguments, a declaration with parameters, or a match
/// without a wildcard arm. The arms behind the first wildcard of a match are
/// never reached and have no fault.
pub open spec fn first_fault(e: ExprView, scope: Seq<Seq<char>>) -> Option<LowerError>
    decreases e, 0nat,
{
    match e {
        ExprView::Number(_) => None,
        ExprView::Ident(name) => if scope.contains(name) {
            None
        } else {
            Some(LowerError::UndefinedVariable)
        },
        ExprView::Call(head, args) => {
            if head == "print"@ && args.len() == 1 {
                first_fault(args[0], scope)
            } else if (binary_op(head) is Some || predicate_of(head) is Some) && args.len() == 2 {
                or_else(first_fault(args[0], scope), first_fault(args[1], scope))
            } else {
                Some(LowerError::UnknownCall)
            }
        },
        ExprView::Sequence(first, second) => or_else(
            first_fault(*first, scope),
            first_fault(*second, scope),
        ),
        ExprView::Assign(name, value) => or_else(
            first_fault(*value, scope),
            if scope.contains(name) {
                None
            } else {
                Some(LowerError::AssignToUndefined)
            },
        ),
        ExprView::Decl(name, params, value, body) => {
            if params.len() > 0 {
                Some(LowerError::FunctionsNotSupported)
            } else {
                or_else(first_fault(*value, scope), first_fault(*body, scope.push(name)))
            }
        },
        ExprView::While(cond, body) => or_else(
            first_fault(*cond, scope),
            first_fault(*body, scope),
        ),
        ExprView::Match(scrutinee, arms) => {
            if !has_wildcard(arms) {
                Some(LowerError::NonExhaustiveMatch)
            } else {
                or_else(first_fault(*scrutinee, scope), first_fault_of_arms(arms, 0, scope))
            }
        },
    }
}

/// The first fault of the arms of a match from the arm `i` on, up to the
/// first wildcard.
pub open spec fn first_fault_of_arms(
    arms: Seq<(Pattern, ExprView)>,
    i: int,
    scope: Seq<Seq<char>>,
) -> Option<LowerError>
    decreases arms, arms.len() - i,
{
    if i < 0 || i >= arms.len() {
        None
    } else {
        match arms[i].0 {
            Pattern::Wildcard => first_fault(arms[i].1, scope),
            Pattern::Literal(_) => or_else(
                first_fault(arms[i].1, scope),
                first_fault_of_arms(arms, i + 1, scope),
            ),
        }
    }
}

/// The names of the variables in scope, innermost last.
pub open spec fn names_in(scope: Seq<(Seq<char>, usize)>) -> Seq<Seq<char>> {
    scope.map_values(|v: (Seq<char>, usize)| v.0)
}

/// A variable has a slot if and only if its name is in scope.
pub proof fn lemma_lookup_names(scope: Seq<(Seq<char>, usize)>, name: Seq<char>)
    ensures
        lookup(scope, name) is Some <==> names_in(scope).contains(name),
    decreases scope.len(),
{
    let names = names_in(scope);
    if scope.len() > 0 {
        if scope.last().0 == name {
            assert(names[names.len() - 1] == name);
        } else {
            lemma_lookup_names(scope.drop_last(), name);
            let shorter = names_in(scope.drop_last());
            assert(shorter =~= names.drop_last());
            if names.contains(name) {
                let i = choose|i: int| 0 <= i < names.len() && names[i] == name;
                assert(shorter[i] == name);
            }
            if shorter.contains(name) {
                let i = choose|i: int| 0 <= i < shorter.len() && shorter[i] == name;
                assert(names[i] == name);
            }
        }
    }
}

/// Whether lowering `e` in the state `l` has the fault that `first_fault`
/// names, or none where it names none; and leaves the scope as it is.
pub open spec fn faults_as_checked(e: ExprView, l: Lowering) -> bool {
    match first_fault(e, names_in(l.scope)) {
        Some(fault) => lower(e, l) == Err::<(Lowering, Operand), LowerError>(fault),
        None => lower(e, l) matches Ok((after, _)) && after.scope == l.scope,
    }
}

/// Lowering fails where the expression has a fault, with its first fault,
/// and nowhere else.
pub proof fn law_lowering_fails_with_first_fault(e: ExprView, l: Lowering)
    ensures
        faults_as_checked(e, l),
    decreases e, 0nat,
{
    let names = names_in(l.scope);
    match e {
        ExprView::Number(_) => {},
        ExprView::Ident(name) => {
            lemma_lookup_names(l.scope, name);
        },
        ExprView::Call(head, args) => {
            if head == "print"@ && args.len() == 1 {
                law_lowering_fails_with_first_fault(args[0], l);
            } else if (binary_op(head) is Some || predicate_of(head) is Some) && args.len() == 2 {
                law_lowering_fails_with_first_fault(args[0], l);
                if let Ok((l1, _)) = lower(args[0], l) {
                    law_lowering_fails_with_first_fault(args[1], l1);
                }
            }
        },
        ExprView::Sequence(first, second) => {
            law_lowering_fails_with_first_fault(*first, l);
            if let Ok((l1, _)) = lower(*first, l) {
                law_lowering_fails_with_first_fault(*second, l1);
            }
        },
        ExprView::Assign(name, value) => {
            law_lowering_fails_with_first_fault(*value, l);
            if let Ok((l1, _)) = lower(*value, l) {
                lemma_lookup_names(l1.scope, name);
            }
        },
        ExprView::Decl(name, params, value, body) => {
            if params.len() == 0 {
                law_lowering_fails_with_first_fault(*value, l);
                if let Ok((l1, v)) = lower(*value, l) {
                    let slot = l1.next_slot();
                    let l2 = l1.slot(name).emit(crate::ir::Instr::Store { slot, value: v }).bind(
                        name,
                        slot,
                    );
                    assert(names_in(l2.scope) =~= names.push(name));
                    law_lowering_fails_with_first_fault(*body, l2);
                    if let Ok((l3, _)) = lower(*body, l2) {
                        assert(l3.unbind().scope =~= l.scope);
                    }
                }
            }
        },
        ExprView::While(cond, body) => {
            law_lowering_fails_with_first_fault(*cond, l.enter_loop());
            if let Ok((l1, c)) = lower(*cond, l.enter_loop()) {
                law_lowering_fails_with_first_fault(*body, l1.test_loop(c, l.next_block()));
            }
        },
        ExprView::Match(scrutinee, arms) => {
            if has_wildcard(arms) {
                law_lowering_fails_with_first_fault(*scrutinee, l);
                if let Ok((l1, s)) = lower(*scrutinee, l) {
                    lemma_arms_fail_with_first_fault(
                        arms,
                        0,
                        l1.enter_match(),
                        s,
                        l1.next_slot(),
                        l1.next_block(),
                    );
                }
            }
        },
    }
}

proof fn lemma_arms_fail_with_first_fault(
    arms: Seq<(Pattern, ExprView)>,
    i: int,
    l: Lowering,
    scrutinee: Operand,
    result: usize,
    merge: usize,
)
    ensures
        match first_fault_of_arms(arms, i, names_in(l.scope)) {
            Some(fault) => lower_arms(arms, i, l, scrutinee, result, merge) == Err::<
                Lowering,
                LowerError,
            >(fault),
            None => lower_arms(arms, i, l, scrutinee, result, merge) matches Ok(after)
                && after.scope == l.scope,
        },
    decreases arms, arms.len() - i,
{
    if 0 <= i < arms.len() {
        match arms[i].0 {
            Pattern::Wildcard => {
                law_lowering_fails_with_first_fault(arms[i].1, l);
            },
            Pattern::Literal(k) => {
                let lt = l.test_arm(i, arms.len(), scrutinee, k, merge);
                law_lowering_fails_with_first_fault(arms[i].1, lt);
                if let Ok((l1, v)) = lower(arms[i].1, lt) {
                    lemma_arms_fail_with_first_fault(
                        arms,
                        i + 1,
                        l1.emit(crate::ir::Instr::Store { slot: result, value: v }).terminate(
                            crate::ir::Terminator::Jump(merge),
                        ).at(l.next_check(i, arms.len(), merge)),
                        scrutinee,
                        result,
                        merge,
                    );
                }
            },
        }
    }
}

/// Names are resolved: a variable that is read or assigned where no
/// enclosing declaration has it in scope is a fault of resolution.
pub proof fn law_unbound_name_is_fault(name: Seq<char>, value: ExprView, scope: Seq<Seq<char>>)
    requires
        !scope.contains(name),
        first_fault(value, scope) is None,
    ensures
        first_fault(ExprView::Ident(name), scope) matches Some(fault) && fault.is_resolution(),
        first_fault(ExprView::Assign(name, Box::new(value)), scope) matches Some(fault)
            && fault.is_resolution(),
{
}

/// A program has code if and only if it has no fault, and else lowering
/// gives its first fault.
pub proof fn law_program_has_code_or_fault(e: ExprView)
    ensures
        match first_fault(e, Seq::empty()) {
            Some(fault) => lower_program(e) == Err::<FunctionView, LowerError>(fault),
            None => lower_program(e) is Ok,
        },
{
    law_lowering_fails_with_first_fault(e, Lowering::start());
    assert(names_in(Lowering::start().scope) =~= Seq::<Seq<char>>::empty());
}

} // verus!
