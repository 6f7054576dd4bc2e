use crate::ast::{ExprView, Pattern};
use crate::ir::Operand;
use crate::lower::{has_wildcard, lower, lower_program, LowerError, Lowering};
use vstd::prelude::*;

verus! {

/// Exhaustiveness: a match without a wildcard arm has no code, whatever its
/// scrutinee and its arms are, and the fault is one of exhaustiveness.
pub proof fn law_match_needs_wildcard(
    scrutinee: ExprView,
    arms: Seq<(Pattern, ExprView)>,
    l: Lowering,
)
    requires
        !has_wildcard(arms),
    ensures
        lower(ExprView::Match(Box::new(scrutinee), arms), l) == Err::<
            (Lowering, Operand),
            LowerError,
        >(LowerError::NonExhaustiveMatch),
        lower_program(ExprView::Match(Box::new(scrutinee), arms)) matches Err(fault)
            && fault.is_exhaustiveness(),
{
}

/// The value of a loop: the operand that holds the value of a loop is the
/// constant 0.
pub proof fn law_loop_value_is_zero(cond: ExprView, body: ExprView, l: Lowering)
    ensures
        lower(ExprView::While(Box::new(cond), Box::new(body)), l) matches Ok((_, value))
            ==> value == Operand::Const(0),
{
}

} // verus!
