//! Translation of conditionals.
use vstd::prelude::*;
use crate::ast::{AST, Exp};
use crate::tree::{self, Fragment, Label, Level, RelOp, SpecExp, newlabel, newtemp, stms_view};
use crate::tree::{exp_labels, stm_labels};
use crate::tree::FIRST_FRESH_TEMP;
use super::temps::{exp_temps_drawn, lemma_temps_exp, lemma_temps_stm, lemma_value_temp_apart, stm_temps_drawn, value_temp_apart};
use super::fresh::{keeps_clear, labels_below, lemma_exp_keeps_clear, lemma_stm_keeps_clear};
use crate::typecheck::ValueEnviroment;
use super::{
    TransError, calls_resolved, exp_result_view, has_room, stm_result_view, trans_exp_spec, trans_size,
    trans_stm_spec, translation_laws,
};

verus! {

/// `if test then a else b` as a value: the test jumps to one of two branches,
/// each moves its value into a new temp, and the temp is the result.
pub fn trans_exp(
    exp: &AST,
    level: Level,
    value_env: &ValueEnviroment,
    breaks_stack: &Vec<Option<Label>>,
    frags: Vec<Fragment>,
) -> (r: Result<(tree::Exp, Level, Vec<Fragment>), TransError>)
    requires
        exp.node matches Exp::If { else_: Some(_), .. },
        calls_resolved(*exp, *value_env),
        has_room(level, trans_size(*exp)),
        labels_below(level.next_label as int, breaks_stack@, frags@, *value_env),
        level.next_temp >= FIRST_FRESH_TEMP,
    ensures
        exp_result_view(r) == trans_exp_spec(*exp, level, *value_env, breaks_stack@, frags@),
        translation_laws(r, level, frags@, trans_size(*exp)),
        r matches Ok((t, l, f)) ==> keeps_clear(exp_labels(t@), level, l, breaks_stack@, frags@, f@, *value_env),
        r matches Ok((t, l, f)) ==> exp_temps_drawn(t@, level.next_temp as int, l.next_temp as int),
        r is Ok ==> value_temp_apart(*exp, level, *value_env, breaks_stack@, frags@),
    decreases *exp, 0nat,
{
    proof {
        lemma_exp_keeps_clear(*exp, level, *value_env, breaks_stack@, frags@);
        lemma_temps_exp(*exp, level, *value_env, breaks_stack@, frags@);
        lemma_value_temp_apart(*exp, level, *value_env, breaks_stack@, frags@);
    }
    match &exp.node {
        Exp::If { test, then_, else_: Some(else_) } => {
            let (test_exp, test_level, test_frags) = match super::trans_exp(&**test, level, value_env, breaks_stack, frags) {
                Ok(t) => t,
                Err(e) => return Err(e),
            };
            let (then_exp, then_level, then_frags) = match super::trans_exp(then_, test_level, value_env, breaks_stack, test_frags) {
                Ok(t) => t,
                Err(e) => return Err(e),
            };
            let (else_exp, else_level, else_frags) = match super::trans_exp(else_, then_level, value_env, breaks_stack, then_frags) {
                Ok(t) => t,
                Err(e) => return Err(e),
            };
            let ghost (te, the, ee) = (test_exp@, then_exp@, else_exp@);
            let mut level = else_level;
            let then_label = newlabel(&mut level);
            let join_label = newlabel(&mut level);
            let else_label = newlabel(&mut level);
            let result = newtemp(&mut level);
            let one = tree::Exp::CONST(1);
            assert(one@ == SpecExp::Const(1));
            let s0 = tree::Stm::CJUMP(RelOp::GE, test_exp, one, then_label, else_label);
            let s1 = tree::Stm::LABEL(then_label);
            let t1 = tree::Exp::TEMP(result);
            assert(t1@ == SpecExp::Temp(result));
            let s2 = tree::Stm::MOVE(Box::new(t1), Box::new(then_exp));
            let target = tree::Exp::NAME(join_label);
            assert(target@ == SpecExp::Name(join_label));
            let targets = vec![join_label];
            assert(targets@ =~= seq![join_label]);
            let s3 = tree::Stm::JUMP(target, targets);
            let s4 = tree::Stm::LABEL(else_label);
            let t2 = tree::Exp::TEMP(result);
            assert(t2@ == SpecExp::Temp(result));
            let s5 = tree::Stm::MOVE(Box::new(t2), Box::new(else_exp));
            let s6 = tree::Stm::LABEL(join_label);
            let ghost views = seq![s0@, s1@, s2@, s3@, s4@, s5@, s6@];
            let stms = vec![s0, s1, s2, s3, s4, s5, s6];
            assert(stms_view(stms@) =~= views);
            let code = tree::seq(stms);
            let t3 = tree::Exp::TEMP(result);
            assert(t3@ == SpecExp::Temp(result));
            assert(frags@.is_prefix_of(else_frags@));
            Ok((tree::Exp::ESEQ(Box::new(code), Box::new(t3)), level, else_frags))
        },
        _ => {
            assert(false);
            Err(TransError::Unsupported(exp.pos))
        },
    }
}

/// `if test then a` and `if test then a else b` run for their effect: the
/// test jumps to the branch to run; the branches meet at a join label.
pub fn trans_stm(
    exp: &AST,
    level: Level,
    value_env: &ValueEnviroment,
    breaks_stack: &Vec<Option<Label>>,
    frags: Vec<Fragment>,
) -> (r: Result<(tree::Stm, Level, Vec<Fragment>), TransError>)
    requires
        exp.node is If,
        calls_resolved(*exp, *value_env),
        has_room(level, trans_size(*exp)),
        labels_below(level.next_label as int, breaks_stack@, frags@, *value_env),
        level.next_temp >= FIRST_FRESH_TEMP,
    ensures
        stm_result_view(r) == trans_stm_spec(*exp, level, *value_env, breaks_stack@, frags@),
        translation_laws(r, level, frags@, trans_size(*exp)),
        r matches Ok((t, l, f)) ==> keeps_clear(stm_labels(t@), level, l, breaks_stack@, frags@, f@, *value_env),
        r matches Ok((t, l, f)) ==> stm_temps_drawn(t@, level.next_temp as int, l.next_temp as int),
    decreases *exp, 0nat,
{
    proof {
        lemma_stm_keeps_clear(*exp, level, *value_env, breaks_stack@, frags@);
        lemma_temps_stm(*exp, level, *value_env, breaks_stack@, frags@);
    }
    match &exp.node {
        Exp::If { test, then_, else_: None } => {
            let (test_exp, test_level, test_frags) = match super::trans_exp(&**test, level, value_env, breaks_stack, frags) {
                Ok(t) => t,
                Err(e) => return Err(e),
            };
            let (then_stm, then_level, then_frags) = match super::trans_stm(then_, test_level, value_env, breaks_stack, test_frags) {
                Ok(t) => t,
                Err(e) => return Err(e),
            };
            let mut level = then_level;
            let then_label = newlabel(&mut level);
            let join_label = newlabel(&mut level);
            let one = tree::Exp::CONST(1);
            assert(one@ == SpecExp::Const(1));
            let s0 = tree::Stm::CJUMP(RelOp::GE, test_exp, one, then_label, join_label);
            let s1 = tree::Stm::LABEL(then_label);
            let s3 = tree::Stm::LABEL(join_label);
            let ghost views = seq![s0@, s1@, then_stm@, s3@];
            let stms = vec![s0, s1, then_stm, s3];
            assert(stms_view(stms@) =~= views);
            assert(frags@.is_prefix_of(then_frags@));
            Ok((tree::seq(stms), level, then_frags))
        },
        Exp::If { test, then_, else_: Some(else_) } => {
            let (test_exp, test_level, test_frags) = match super::trans_exp(&**test, level, value_env, breaks_stack, frags) {
                Ok(t) => t,
                Err(e) => return Err(e),
            };
            let (then_stm, then_level, then_frags) = match super::trans_stm(then_, test_level, value_env, breaks_stack, test_frags) {
                Ok(t) => t,
                Err(e) => return Err(e),
            };
            let (else_stm, else_level, else_frags) = match super::trans_stm(else_, then_level, value_env, breaks_stack, then_frags) {
                Ok(t) => t,
                Err(e) => return Err(e),
            };
            let mut level = else_level;
            let then_label = newlabel(&mut level);
            let join_label = newlabel(&mut level);
            let else_label = newlabel(&mut level);
            let one = tree::Exp::CONST(1);
            assert(one@ == SpecExp::Const(1));
            let s0 = tree::Stm::CJUMP(RelOp::GE, test_exp, one, then_label, else_label);
            let s1 = tree::Stm::LABEL(then_label);
            let target = tree::Exp::NAME(join_label);
            assert(target@ == SpecExp::Name(join_label));
            let targets = vec![join_label];
            assert(targets@ =~= seq![join_label]);
            let s3 = tree::Stm::JUMP(target, targets);
            let s4 = tree::Stm::LABEL(else_label);
            let s6 = tree::Stm::LABEL(join_label);
            let ghost views = seq![s0@, s1@, then_stm@, s3@, s4@, else_stm@, s6@];
            let stms = vec![s0, s1, then_stm, s3, s4, else_stm, s6];
            assert(stms_view(stms@) =~= views);
            assert(frags@.is_prefix_of(else_frags@));
            Ok((tree::seq(stms), level, else_frags))
        },
        _ => {
            assert(false);
            Err(TransError::Unsupported(exp.pos))
        },
    }
}

} // verus!
