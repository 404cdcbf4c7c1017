//! Translation of `break`.
use vstd::prelude::*;
use crate::ast::{AST, Exp};
use crate::tree::{self, Fragment, Label, Level};
use crate::typecheck::ValueEnviroment;
use super::{TransError, stm_result_view, trans_size, trans_stm_spec, translation_laws};

verus! {

/// `break` jumps to the end of the innermost loop, whose label is on top of
/// the stack; a `break` with no loop label on top is an error.
pub fn trans_stm(
    exp: &AST,
    level: Level,
    _value_env: &ValueEnviroment,
    breaks_stack: &Vec<Option<Label>>,
    frags: Vec<Fragment>,
) -> (r: Result<(tree::Stm, Level, Vec<Fragment>), TransError>)
    requires
        exp.node is Break,
    ensures
        stm_result_view(r) == trans_stm_spec(*exp, level, *_value_env, breaks_stack@, frags@),
        translation_laws(r, level, frags@, trans_size(*exp)),
{
    let loop_end_label = match breaks_stack.as_slice().last() {
        Some(Some(l)) => *l,
        _ => return Err(TransError::BreakError(exp.pos)),
    };
    let target = tree::Exp::NAME(loop_end_label);
    let labels = vec![loop_end_label];
    assert(target@ == tree::SpecExp::Name(loop_end_label));
    assert(labels@ =~= seq![loop_end_label]);
    let jump = tree::Stm::JUMP(target, labels);
    assert(frags@.is_prefix_of(frags@));
    Ok((jump, level, frags))
}

} // verus!
