//! Translation of function calls.
use vstd::prelude::*;
use crate::ast::{AST, Exp};
use crate::tree::{self, Fragment, Label, Level, SpecExp, exps_view, lemma_exps_view};
use crate::tree::{exp_labels, stm_labels};
use crate::tree::FIRST_FRESH_TEMP;
use super::temps::{exp_temps_drawn, lemma_temps_exp, lemma_temps_stm, stm_temps_drawn};
use super::fresh::{keeps_clear, labels_below, lemma_exp_keeps_clear, lemma_stm_keeps_clear};
use crate::typecheck::{EnvEntry, ValueEnviroment};
use super::{
    TransError, calls_resolved, exp_result_view, has_room, static_link, stm_result_view,
    trans_exp_spec, trans_size, trans_stm_spec, translate_many_exp, translation_laws,
};
use super::varexp::generate_static_link;

verus! {

/// A call becomes a `CALL` to the function's label, with the static link
/// followed by the translated arguments.
pub fn trans_exp(
    exp: &AST,
    level: Level,
    value_env: &ValueEnviroment,
    breaks_stack: &Vec<Option<Label>>,
    frags: Vec<Fragment>,
) -> (r: Result<(tree::Exp, Level, Vec<Fragment>), TransError>)
    requires
        exp.node is Call,
        calls_resolved(*exp, *value_env),
        has_room(level, trans_size(*exp)),
        labels_below(level.next_label as int, breaks_stack@, frags@, *value_env),
        level.next_temp >= FIRST_FRESH_TEMP,
    ensures
        exp_result_view(r) == trans_exp_spec(*exp, level, *value_env, breaks_stack@, frags@),
        translation_laws(r, level, frags@, trans_size(*exp)),
        r matches Ok((t, l, f)) ==> keeps_clear(exp_labels(t@), level, l, breaks_stack@, frags@, f@, *value_env),
        r matches Ok((t, l, f)) ==> exp_temps_drawn(t@, level.next_temp as int, l.next_temp as int),
    decreases *exp, 0nat,
{
    proof {
        lemma_exp_keeps_clear(*exp, level, *value_env, breaks_stack@, frags@);
        lemma_temps_exp(*exp, level, *value_env, breaks_stack@, frags@);
    }
    match &exp.node {
        Exp::Call { func, args } => {
            // The checker makes sure that the name is bound to a function.
            match value_env.get(func) {
                Some(EnvEntry::Func { label, external: _, .. }) => {
                    let (mut arg_exps, args_level, frags) = match translate_many_exp(args, level, value_env, breaks_stack, frags) {
                        Ok(t) => t,
                        Err(e) => return Err(e),
                    };
                    let sl = generate_static_link(args_level.nesting_depth);
                    let ghost before = arg_exps@;
                    arg_exps.insert(0, sl);
                    proof {
                        lemma_exps_view(before);
                        lemma_exps_view(arg_exps@);
                        assert(exps_view(arg_exps@) =~= seq![static_link(args_level.nesting_depth as int)] + exps_view(before));
                    }
                    let name = tree::Exp::NAME(*label);
                    assert(name@ == SpecExp::Name(*label));
                    Ok((tree::Exp::CALL(Box::new(name), arg_exps), args_level, frags))
                },
                _ => {
                    assert(false);
                    Err(TransError::Unsupported(exp.pos))
                },
            }
        },
        _ => {
            assert(false);
            Err(TransError::Unsupported(exp.pos))
        },
    }
}

/// A call run for its effect: its value is dropped.
pub fn trans_stm(
    exp: &AST,
    level: Level,
    value_env: &ValueEnviroment,
    breaks_stack: &Vec<Option<Label>>,
    frags: Vec<Fragment>,
) -> (r: Result<(tree::Stm, Level, Vec<Fragment>), TransError>)
    requires
        exp.node is Call,
        calls_resolved(*exp, *value_env),
        has_room(level, trans_size(*exp)),
        labels_below(level.next_label as int, breaks_stack@, frags@, *value_env),
        level.next_temp >= FIRST_FRESH_TEMP,
    ensures
        stm_result_view(r) == trans_stm_spec(*exp, level, *value_env, breaks_stack@, frags@),
        translation_laws(r, level, frags@, trans_size(*exp)),
        r matches Ok((t, l, f)) ==> keeps_clear(stm_labels(t@), level, l, breaks_stack@, frags@, f@, *value_env),
        r matches Ok((t, l, f)) ==> stm_temps_drawn(t@, level.next_temp as int, l.next_temp as int),
    decreases *exp, 1nat,
{
    proof {
        lemma_stm_keeps_clear(*exp, level, *value_env, breaks_stack@, frags@);
        lemma_temps_stm(*exp, level, *value_env, breaks_stack@, frags@);
    }
    let (exp, exp_level, frags) = match trans_exp(exp, level, value_env, breaks_stack, frags) {
        Ok(t) => t,
        Err(e) => return Err(e),
    };
    Ok((tree::Stm::EXP(Box::new(exp)), exp_level, frags))
}

} // verus!
