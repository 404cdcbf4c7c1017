//! Translation of checked expressions into tree code: the translation scheme
//! as spec functions, and the entry points that dispatch on the kind of node.
use vstd::prelude::*;
use crate::ast::{AST, Exp, Pos};
use crate::tree::{self, Fragment, Label, Level, RelOp, SpecExp, SpecStm, Temp, FIRST_FRESH_TEMP, FRAME_POINTER, exps_view, lemma_exps_view, seq_view};
use crate::typecheck::{EnvEntry, ValueEnviroment};
use crate::tree::{exp_labels, exps_labels, stm_labels};
use temps::{exp_temps_drawn, exps_temps_drawn, lemma_temps_exp, lemma_temps_many, lemma_temps_stm, stm_temps_drawn};
use fresh::{keeps_clear, labels_below, lemma_exp_keeps_clear, lemma_many_keeps_clear, lemma_stm_keeps_clear};

pub mod breakexp;
pub mod fresh;
pub mod laws;
pub mod callexp;
pub mod ifexp;
pub mod stringexp;
pub mod temps;
pub mod varexp;

verus! {

#[derive(Clone, Copy, PartialEq, Eq, Structural, Debug)]
pub enum TransError {
    /// A `break` outside any loop.
    BreakError(Pos),
    /// An expression whose translation this library does not hold.
    Unsupported(Pos),
}

/// The static link of a function at the given nesting depth: the frame
/// pointer, followed once per enclosing level.
pub open spec fn static_link(depth: int) -> SpecExp
    decreases depth,
{
    if depth <= 0 {
        SpecExp::Temp(Temp { id: FRAME_POINTER })
    } else {
        SpecExp::Mem(Box::new(static_link(depth - 1)))
    }
}

/// Every call that translation reaches names a function bound in the value
/// environment (the checker makes sure of this).
pub open spec fn calls_resolved(e: AST, venv: ValueEnviroment) -> bool
    decreases e, 0nat,
{
    match e.node {
        Exp::Call { func, args } => venv@.dom().contains(func@) && venv@[func@] is Func
            && all_calls_resolved(args@, venv),
        Exp::If { test, then_, else_ } => calls_resolved(*test, venv) && calls_resolved(*then_, venv)
            && match else_ {
            Some(el) => calls_resolved(*el, venv),
            None => true,
        },
        _ => true,
    }
}

pub open spec fn all_calls_resolved(s: Seq<AST>, venv: ValueEnviroment) -> bool
    decreases s, 0nat,
{
    if s.len() == 0 {
        true
    } else {
        calls_resolved(s[0], venv) && all_calls_resolved(s.subrange(1, s.len() as int), venv)
    }
}

/// The number of nodes that translation visits; each takes at most three
/// labels and one temp.
pub open spec fn trans_size(e: AST) -> nat
    decreases e, 0nat,
{
    match e.node {
        Exp::Call { args, .. } => 1 + args_size(args@),
        Exp::If { test, then_, else_ } => 1 + trans_size(*test) + trans_size(*then_) + match else_ {
            Some(el) => trans_size(*el),
            None => 0,
        },
        _ => 1,
    }
}

pub open spec fn args_size(s: Seq<AST>) -> nat
    decreases s, 0nat,
{
    if s.len() == 0 {
        0
    } else {
        trans_size(s[0]) + args_size(s.subrange(1, s.len() as int))
    }
}

/// The label and temp counters leave room for `n` more nodes.
pub open spec fn has_room(level: Level, n: nat) -> bool {
    level.next_label + 3 * n <= u64::MAX && level.next_temp + n <= u64::MAX
}

/// What translation keeps of a level: the depth stays, the counters only grow,
/// by at most three labels and one temp per node.
pub open spec fn level_advance(before: Level, after: Level, n: nat) -> bool {
    &&& after.nesting_depth == before.nesting_depth
    &&& before.next_label <= after.next_label <= before.next_label + 3 * n
    &&& before.next_temp <= after.next_temp <= before.next_temp + n
}

pub open spec fn bump_labels(level: Level, k: nat) -> Level {
    Level { next_label: (level.next_label + k) as u64, ..level }
}

/// The translation of an expression that yields a value.
pub open spec fn trans_exp_spec(
    e: AST,
    level: Level,
    venv: ValueEnviroment,
    breaks: Seq<Option<Label>>,
    frags: Seq<Fragment>,
) -> Result<(SpecExp, Level, Seq<Fragment>), TransError>
    decreases e, 1nat,
{
    match e.node {
        Exp::Int(i) => Ok((SpecExp::Const(i), level, frags)),
        Exp::String(s) => {
            let l = Label { id: level.next_label };
            Ok((SpecExp::Name(l), bump_labels(level, 1), frags.push(Fragment::ConstString(l, s))))
        },
        Exp::Call { func, args } => if venv@.dom().contains(func@) {
            match venv@[func@] {
                EnvEntry::Func { label, .. } => match trans_many_spec(args@, level, venv, breaks, frags) {
                    Ok((es, l, f)) => Ok(
                        (SpecExp::Call(Box::new(SpecExp::Name(label)), seq![static_link(l.nesting_depth as int)] + es), l, f),
                    ),
                    Err(err) => Err(err),
                },
                _ => Err(TransError::Unsupported(e.pos)),
            }
        } else {
            Err(TransError::Unsupported(e.pos))
        },
        Exp::If { test, then_, else_: Some(else_) } => match trans_exp_spec(*test, level, venv, breaks, frags) {
            Err(err) => Err(err),
            Ok((te, l1, f1)) => match trans_exp_spec(*then_, l1, venv, breaks, f1) {
                Err(err) => Err(err),
                Ok((then_e, l2, f2)) => match trans_exp_spec(*else_, l2, venv, breaks, f2) {
                    Err(err) => Err(err),
                    Ok((else_e, l3, f3)) => {
                        let then_label = Label { id: l3.next_label };
                        let join_label = Label { id: (l3.next_label + 1) as u64 };
                        let else_label = Label { id: (l3.next_label + 2) as u64 };
                        let result = Temp { id: l3.next_temp };
                        let code = seq_view(
                            seq![
                                SpecStm::CJump(RelOp::GE, te, SpecExp::Const(1), then_label, else_label),
                                SpecStm::Label(then_label),
                                SpecStm::Move(Box::new(SpecExp::Temp(result)), Box::new(then_e)),
                                SpecStm::Jump(SpecExp::Name(join_label), seq![join_label]),
                                SpecStm::Label(else_label),
                                SpecStm::Move(Box::new(SpecExp::Temp(result)), Box::new(else_e)),
                                SpecStm::Label(join_label),
                            ],
                        );
                        Ok(
                            (
                                SpecExp::Eseq(Box::new(code), Box::new(SpecExp::Temp(result))),
                                Level { next_temp: (l3.next_temp + 1) as u64, ..bump_labels(l3, 3) },
                                f3,
                            ),
                        )
                    },
                },
            },
        },
        _ => Err(TransError::Unsupported(e.pos)),
    }
}

/// The translation of an expression run for its effect.
pub open spec fn trans_stm_spec(
    e: AST,
    level: Level,
    venv: ValueEnviroment,
    breaks: Seq<Option<Label>>,
    frags: Seq<Fragment>,
) -> Result<(SpecStm, Level, Seq<Fragment>), TransError>
    decreases e, 2nat,
{
    match e.node {
        Exp::Break => if breaks.len() > 0 && breaks.last() is Some {
            let l = breaks.last()->0;
            Ok((SpecStm::Jump(SpecExp::Name(l), seq![l]), level, frags))
        } else {
            Err(TransError::BreakError(e.pos))
        },
        Exp::If { test, then_, else_: None } => match trans_exp_spec(*test, level, venv, breaks, frags) {
            Err(err) => Err(err),
            Ok((te, l1, f1)) => match trans_stm_spec(*then_, l1, venv, breaks, f1) {
                Err(err) => Err(err),
                Ok((then_s, l2, f2)) => {
                    let then_label = Label { id: l2.next_label };
                    let join_label = Label { id: (l2.next_label + 1) as u64 };
                    Ok(
                        (
                            seq_view(
                                seq![
                                    SpecStm::CJump(RelOp::GE, te, SpecExp::Const(1), then_label, join_label),
                                    SpecStm::Label(then_label),
                                    then_s,
                                    SpecStm::Label(join_label),
                                ],
                            ),
                            bump_labels(l2, 2),
                            f2,
                        ),
                    )
                },
            },
        },
        Exp::If { test, then_, else_: Some(else_) } => match trans_exp_spec(*test, level, venv, breaks, frags) {
            Err(err) => Err(err),
            Ok((te, l1, f1)) => match trans_stm_spec(*then_, l1, venv, breaks, f1) {
                Err(err) => Err(err),
                Ok((then_s, l2, f2)) => match trans_stm_spec(*else_, l2, venv, breaks, f2) {
                    Err(err) => Err(err),
                    Ok((else_s, l3, f3)) => {
                        let then_label = Label { id: l3.next_label };
                        let join_label = Label { id: (l3.next_label + 1) as u64 };
                        let else_label = Label { id: (l3.next_label + 2) as u64 };
                        Ok(
                            (
                                seq_view(
                                    seq![
                                        SpecStm::CJump(RelOp::GE, te, SpecExp::Const(1), then_label, else_label),
                                        SpecStm::Label(then_label),
                                        then_s,
                                        SpecStm::Jump(SpecExp::Name(join_label), seq![join_label]),
                                        SpecStm::Label(else_label),
                                        else_s,
                                        SpecStm::Label(join_label),
                                    ],
                                ),
                                bump_labels(l3, 3),
                                f3,
                            ),
                        )
                    },
                },
            },
        },
        Exp::Call { .. } => match trans_exp_spec(e, level, venv, breaks, frags) {
            Ok((ce, l, f)) => Ok((SpecStm::Exp(Box::new(ce)), l, f)),
            Err(err) => Err(err),
        },
        _ => Err(TransError::Unsupported(e.pos)),
    }
}

/// The translation of a list of expressions, left to right.
pub open spec fn trans_many_spec(
    s: Seq<AST>,
    level: Level,
    venv: ValueEnviroment,
    breaks: Seq<Option<Label>>,
    frags: Seq<Fragment>,
) -> Result<(Seq<SpecExp>, Level, Seq<Fragment>), TransError>
    decreases s, 0nat,
{
    if s.len() == 0 {
        Ok((Seq::empty(), level, frags))
    } else {
        match trans_exp_spec(s[0], level, venv, breaks, frags) {
            Err(err) => Err(err),
            Ok((first, l1, f1)) => match trans_many_spec(s.subrange(1, s.len() as int), l1, venv, breaks, f1) {
                Err(err) => Err(err),
                Ok((rest, l2, f2)) => Ok((seq![first] + rest, l2, f2)),
            },
        }
    }
}

pub open spec fn exp_result_view(r: Result<(tree::Exp, Level, Vec<Fragment>), TransError>) -> Result<(SpecExp, Level, Seq<Fragment>), TransError> {
    match r {
        Ok((t, l, f)) => Ok((t@, l, f@)),
        Err(e) => Err(e),
    }
}

pub open spec fn stm_result_view(r: Result<(tree::Stm, Level, Vec<Fragment>), TransError>) -> Result<(SpecStm, Level, Seq<Fragment>), TransError> {
    match r {
        Ok((t, l, f)) => Ok((t@, l, f@)),
        Err(e) => Err(e),
    }
}

/// The laws every translation keeps: the level keeps its depth and its
/// counters grow within the room given, and fragments are only added.
pub open spec fn translation_laws<T>(
    r: Result<(T, Level, Vec<Fragment>), TransError>,
    level: Level,
    frags: Seq<Fragment>,
    n: nat,
) -> bool {
    r matches Ok((_, l, f)) ==> level_advance(level, l, n) && frags.is_prefix_of(f@)
}

pub open spec fn many_result_view(r: Result<(Vec<tree::Exp>, Level, Vec<Fragment>), TransError>) -> Result<(Seq<SpecExp>, Level, Seq<Fragment>), TransError> {
    match r {
        Ok((es, l, f)) => Ok((exps_view(es@), l, f@)),
        Err(e) => Err(e),
    }
}

/// `done` followed by what `r` translated.
pub open spec fn prepend_exps(done: Seq<SpecExp>, r: Result<(Seq<SpecExp>, Level, Seq<Fragment>), TransError>) -> Result<(Seq<SpecExp>, Level, Seq<Fragment>), TransError> {
    match r {
        Ok((es, l, f)) => Ok((done + es, l, f)),
        Err(e) => Err(e),
    }
}

/// Translates an expression that yields a value.
pub fn trans_exp(
    exp: &AST,
    level: Level,
    value_env: &ValueEnviroment,
    breaks_stack: &Vec<Option<Label>>,
    frags: Vec<Fragment>,
) -> (r: Result<(tree::Exp, Level, Vec<Fragment>), TransError>)
    requires
        calls_resolved(*exp, *value_env),
        has_room(level, trans_size(*exp)),
        labels_below(level.next_label as int, breaks_stack@, frags@, *value_env),
        level.next_temp >= FIRST_FRESH_TEMP,
    ensures
        exp_result_view(r) == trans_exp_spec(*exp, level, *value_env, breaks_stack@, frags@),
        translation_laws(r, level, frags@, trans_size(*exp)),
        r matches Ok((t, l, f)) ==> keeps_clear(exp_labels(t@), level, l, breaks_stack@, frags@, f@, *value_env),
        r matches Ok((t, l, f)) ==> exp_temps_drawn(t@, level.next_temp as int, l.next_temp as int),
    decreases *exp, 1nat,
{
    proof {
        lemma_exp_keeps_clear(*exp, level, *value_env, breaks_stack@, frags@);
        lemma_temps_exp(*exp, level, *value_env, breaks_stack@, frags@);
    }
    match &exp.node {
        Exp::Int(i) => {
            let c = tree::Exp::CONST(*i);
            assert(frags@.is_prefix_of(frags@));
            Ok((c, level, frags))
        },
        Exp::String(_) => stringexp::trans_exp(exp, level, value_env, breaks_stack, frags),
        Exp::Call { .. } => callexp::trans_exp(exp, level, value_env, breaks_stack, frags),
        Exp::If { else_: Some(_), .. } => ifexp::trans_exp(exp, level, value_env, breaks_stack, frags),
        _ => Err(TransError::Unsupported(exp.pos)),
    }
}

/// Translates an expression run for its effect.
pub fn trans_stm(
    exp: &AST,
    level: Level,
    value_env: &ValueEnviroment,
    breaks_stack: &Vec<Option<Label>>,
    frags: Vec<Fragment>,
) -> (r: Result<(tree::Stm, Level, Vec<Fragment>), TransError>)
    requires
        calls_resolved(*exp, *value_env),
        has_room(level, trans_size(*exp)),
        labels_below(level.next_label as int, breaks_stack@, frags@, *value_env),
        level.next_temp >= FIRST_FRESH_TEMP,
    ensures
        stm_result_view(r) == trans_stm_spec(*exp, level, *value_env, breaks_stack@, frags@),
        translation_laws(r, level, frags@, trans_size(*exp)),
        r matches Ok((t, l, f)) ==> keeps_clear(stm_labels(t@), level, l, breaks_stack@, frags@, f@, *value_env),
        r matches Ok((t, l, f)) ==> stm_temps_drawn(t@, level.next_temp as int, l.next_temp as int),
    decreases *exp, 2nat,
{
    proof {
        lemma_stm_keeps_clear(*exp, level, *value_env, breaks_stack@, frags@);
        lemma_temps_stm(*exp, level, *value_env, breaks_stack@, frags@);
    }
    match &exp.node {
        Exp::Break => breakexp::trans_stm(exp, level, value_env, breaks_stack, frags),
        Exp::If { .. } => ifexp::trans_stm(exp, level, value_env, breaks_stack, frags),
        Exp::Call { .. } => callexp::trans_stm(exp, level, value_env, breaks_stack, frags),
        _ => Err(TransError::Unsupported(exp.pos)),
    }
}

/// Translates a list of expressions left to right, threading the level and
/// the fragments through.
pub fn translate_many_exp(
    args: &Vec<AST>,
    level: Level,
    value_env: &ValueEnviroment,
    breaks_stack: &Vec<Option<Label>>,
    frags: Vec<Fragment>,
) -> (r: Result<(Vec<tree::Exp>, Level, Vec<Fragment>), TransError>)
    requires
        all_calls_resolved(args@, *value_env),
        has_room(level, args_size(args@)),
        labels_below(level.next_label as int, breaks_stack@, frags@, *value_env),
        level.next_temp >= FIRST_FRESH_TEMP,
    ensures
        many_result_view(r) == trans_many_spec(args@, level, *value_env, breaks_stack@, frags@),
        translation_laws(r, level, frags@, args_size(args@)),
        r matches Ok((es, l, f)) ==> keeps_clear(exps_labels(exps_view(es@)), level, l, breaks_stack@, frags@, f@, *value_env),
        r matches Ok((es, l, f)) ==> exps_temps_drawn(exps_view(es@), level.next_temp as int, l.next_temp as int),
    decreases args, 0nat,
{
    proof {
        lemma_many_keeps_clear(args@, level, *value_env, breaks_stack@, frags@);
        lemma_temps_many(args@, level, *value_env, breaks_stack@, frags@);
    }
    let ghost level0 = level;
    let ghost frags0 = frags@;
    let mut exps: Vec<tree::Exp> = Vec::new();
    let mut level = level;
    let mut frags = frags;
    let n = args.len();
    assert(args@.subrange(0, n as int) =~= args@);
    assert(exps_view(exps@) =~= Seq::<SpecExp>::empty());
    assert(prepend_exps(Seq::empty(), trans_many_spec(args@, level, *value_env, breaks_stack@, frags@))
        == trans_many_spec(args@, level, *value_env, breaks_stack@, frags@)) by {
        match trans_many_spec(args@, level, *value_env, breaks_stack@, frags@) {
            Ok((es, l, f)) => { assert(Seq::<SpecExp>::empty() + es =~= es); },
            Err(_) => {},
        }
    }
    assert(frags0.is_prefix_of(frags@));
    #[verifier::loop_isolation(false)]
    for i in 0..n
        invariant
            n == args@.len(),
            trans_many_spec(args@, level0, *value_env, breaks_stack@, frags0)
                == prepend_exps(exps_view(exps@), trans_many_spec(args@.subrange(i as int, n as int), level, *value_env, breaks_stack@, frags@)),
            all_calls_resolved(args@.subrange(i as int, n as int), *value_env),
            has_room(level, args_size(args@.subrange(i as int, n as int))),
            level.nesting_depth == level0.nesting_depth,
            level0.next_label <= level.next_label,
            level.next_label + 3 * args_size(args@.subrange(i as int, n as int)) <= level0.next_label + 3 * args_size(args@),
            level0.next_temp <= level.next_temp,
            level.next_temp + args_size(args@.subrange(i as int, n as int)) <= level0.next_temp + args_size(args@),
            frags0.is_prefix_of(frags@),
            labels_below(level.next_label as int, breaks_stack@, frags@, *value_env),
            level.next_temp >= FIRST_FRESH_TEMP,
    {
        let ghost rest = args@.subrange(i as int, n as int);
        let ghost done = exps_view(exps@);
        proof {
            assert(rest[0] == args@[i as int]);
            assert(rest.subrange(1, rest.len() as int) =~= args@.subrange(i + 1, n as int));
        }
        assert(decreases_to!(*args => args@[i as int]));
        match trans_exp(&args[i], level, value_env, breaks_stack, frags) {
            Ok((e, l, f)) => {
                let ghost next = trans_many_spec(args@.subrange(i + 1, n as int), l, *value_env, breaks_stack@, f@);
                proof {
                    lemma_exps_view(exps@);
                }
                exps.push(e);
                proof {
                    lemma_exps_view(exps@);
                    assert(exps_view(exps@) =~= done.push(e@));
                    match next {
                        Ok((es, l2, f2)) => {
                            assert(done.push(e@) + es =~= done + (seq![e@] + es));
                        },
                        Err(_) => {},
                    }
                    assert(frags0.is_prefix_of(f@));
                }
                level = l;
                frags = f;
            },
            Err(err) => {
                return Err(err);
            },
        }
    }
    proof {
        assert(args@.subrange(n as int, n as int) =~= Seq::<AST>::empty());
        assert(exps_view(exps@) + Seq::<SpecExp>::empty() =~= exps_view(exps@));
    }
    Ok((exps, level, frags))
}

} // verus!
