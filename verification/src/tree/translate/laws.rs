//! What translation does, stated over all inputs: how a call passes its
//! static link, where a `break` jumps, and that every string literal gets a
//! fragment of its own that is kept to the end.
use vstd::prelude::*;
use crate::ast::{AST, Exp};
use crate::tree::{Fragment, Label, Level, SpecExp, SpecStm};
use crate::typecheck::{EnvEntry, ValueEnviroment};
use super::{TransError, static_link, trans_exp_spec, trans_many_spec, trans_stm_spec};

verus! {

/// The number of string literals in an expression that translation reaches:
/// in calls' arguments and in the parts of conditionals.
pub open spec fn string_literals(e: AST) -> nat
    decreases e, 1nat,
{
    match e.node {
        Exp::String(_) => 1,
        Exp::Call { args, .. } => list_string_literals(args@),
        Exp::If { test, then_, else_ } => string_literals(*test) + string_literals(*then_) + match else_ {
            Some(el) => string_literals(*el),
            None => 0,
        },
        _ => 0,
    }
}

/// The number of string literals in a list of expressions.
pub open spec fn list_string_literals(s: Seq<AST>) -> nat
    decreases s, 0nat,
{
    if s.len() == 0 {
        0
    } else {
        string_literals(s[0]) + list_string_literals(s.subrange(1, s.len() as int))
    }
}

/// Translating a list of expressions gives one expression for each, in order.
pub proof fn lemma_many_length(s: Seq<AST>, level: Level, venv: ValueEnviroment, breaks: Seq<Option<Label>>, frags: Seq<Fragment>)
    ensures
        trans_many_spec(s, level, venv, breaks, frags) matches Ok((es, l, f)) ==> es.len() == s.len()
            && l.nesting_depth == level.nesting_depth,
    decreases s, 0nat,
{
    if s.len() > 0 {
        lemma_depth_exp(s[0], level, venv, breaks, frags);
        if let Ok((first, l1, f1)) = trans_exp_spec(s[0], level, venv, breaks, frags) {
            lemma_many_length(s.subrange(1, s.len() as int), l1, venv, breaks, f1);
        }
    }
}

/// Translation stays at the level's nesting depth.
pub proof fn lemma_depth_exp(e: AST, level: Level, venv: ValueEnviroment, breaks: Seq<Option<Label>>, frags: Seq<Fragment>)
    ensures
        trans_exp_spec(e, level, venv, breaks, frags) matches Ok((x, l, f)) ==> l.nesting_depth == level.nesting_depth,
    decreases e, 1nat,
{
    match e.node {
        Exp::Call { args, .. } => {
            lemma_many_length(args@, level, venv, breaks, frags);
        },
        Exp::If { test, then_, else_: Some(else_) } => {
            lemma_depth_exp(*test, level, venv, breaks, frags);
            if let Ok((te, l1, f1)) = trans_exp_spec(*test, level, venv, breaks, frags) {
                lemma_depth_exp(*then_, l1, venv, breaks, f1);
                if let Ok((a, l2, f2)) = trans_exp_spec(*then_, l1, venv, breaks, f1) {
                    lemma_depth_exp(*else_, l2, venv, breaks, f2);
                }
            }
        },
        _ => {},
    }
}

/// A call to a function `f(a1, ..., an)` translates to a `CALL` of the
/// function's label whose first argument is the static link for the current
/// nesting depth, followed by one translated expression per argument, in
/// order; this holds for every function, runtime or not.
pub proof fn lemma_call_passes_static_link(
    e: AST,
    level: Level,
    venv: ValueEnviroment,
    breaks: Seq<Option<Label>>,
    frags: Seq<Fragment>,
)
    requires
        e.node matches Exp::Call { func, .. } && venv@.dom().contains(func@) && venv@[func@] is Func,
    ensures
        e.node matches Exp::Call { func, args }
        && venv@[func@] matches EnvEntry::Func { label, .. }
        && (trans_exp_spec(e, level, venv, breaks, frags) matches Ok((x, l, f)) ==> {
            &&& x matches SpecExp::Call(callee, actuals) && {
                &&& *callee == SpecExp::Name(label)
                &&& actuals.len() == args.len() + 1
                &&& actuals[0] == static_link(level.nesting_depth as int)
                &&& trans_many_spec(args@, level, venv, breaks, frags) matches Ok((es, l2, f2))
                    && actuals.drop_first() == es
            }
            &&& l.nesting_depth == level.nesting_depth
        }),
{
    if let Exp::Call { func, args } = e.node {
        lemma_many_length(args@, level, venv, breaks, frags);
        if let Ok((es, l2, f2)) = trans_many_spec(args@, level, venv, breaks, frags) {
            let sl = static_link(l2.nesting_depth as int);
            assert((seq![sl] + es)[0] == sl);
            assert((seq![sl] + es).drop_first() =~= es);
        }
    }
}

/// A `break` jumps to the label on top of the break stack whenever the top
/// holds one, whatever lies below it, and changes neither the level nor the
/// fragments; with an empty stack, or no label on top, it is an error at the
/// `break`'s position.
pub proof fn lemma_break_jumps_to_top(
    e: AST,
    level: Level,
    venv: ValueEnviroment,
    breaks: Seq<Option<Label>>,
    frags: Seq<Fragment>,
)
    requires
        e.node is Break,
    ensures
        breaks.len() > 0 ==> (breaks[breaks.len() - 1] matches Some(l) ==> trans_stm_spec(e, level, venv, breaks, frags)
            == Ok::<(SpecStm, Level, Seq<Fragment>), TransError>((SpecStm::Jump(SpecExp::Name(l), seq![l]), level, frags))),
        breaks.len() == 0 || breaks[breaks.len() - 1] is None ==> trans_stm_spec(e, level, venv, breaks, frags)
            == Err::<(SpecStm, Level, Seq<Fragment>), TransError>(TransError::BreakError(e.pos)),
{
}

/// Every string literal adds exactly one fragment, and the fragments handed
/// in are kept in front: a translation that succeeds hands on the fragments it
/// was given followed by one more for each string literal in the expression.
pub proof fn lemma_fragments_exp(e: AST, level: Level, venv: ValueEnviroment, breaks: Seq<Option<Label>>, frags: Seq<Fragment>)
    ensures
        trans_exp_spec(e, level, venv, breaks, frags) matches Ok((x, l, f)) ==> f.len() == frags.len() + string_literals(e)
            && f.subrange(0, frags.len() as int) == frags,
    decreases e, 1nat,
{
    match e.node {
        Exp::String(s) => {
            let f = frags.push(Fragment::ConstString(Label { id: level.next_label }, s));
            assert(f.subrange(0, frags.len() as int) =~= frags);
        },
        Exp::Call { args, .. } => {
            lemma_fragments_many(args@, level, venv, breaks, frags);
        },
        Exp::If { test, then_, else_: Some(else_) } => {
            lemma_fragments_exp(*test, level, venv, breaks, frags);
            if let Ok((te, l1, f1)) = trans_exp_spec(*test, level, venv, breaks, frags) {
                lemma_fragments_exp(*then_, l1, venv, breaks, f1);
                if let Ok((a, l2, f2)) = trans_exp_spec(*then_, l1, venv, breaks, f1) {
                    lemma_fragments_exp(*else_, l2, venv, breaks, f2);
                    if let Ok((b, l3, f3)) = trans_exp_spec(*else_, l2, venv, breaks, f2) {
                        lemma_prefix_trans(frags, f1, f2);
                        lemma_prefix_trans(frags, f2, f3);
                    }
                }
            }
        },
        _ => {
            assert(frags.subrange(0, frags.len() as int) =~= frags);
        },
    }
}

/// The statement form of the fragment law.
pub proof fn lemma_fragments_stm(e: AST, level: Level, venv: ValueEnviroment, breaks: Seq<Option<Label>>, frags: Seq<Fragment>)
    ensures
        trans_stm_spec(e, level, venv, breaks, frags) matches Ok((x, l, f)) ==> f.len() == frags.len() + string_literals(e)
            && f.subrange(0, frags.len() as int) == frags,
    decreases e, 2nat,
{
    assert(frags.subrange(0, frags.len() as int) =~= frags);
    match e.node {
        Exp::If { test, then_, else_: None } => {
            lemma_fragments_exp(*test, level, venv, breaks, frags);
            if let Ok((te, l1, f1)) = trans_exp_spec(*test, level, venv, breaks, frags) {
                lemma_fragments_stm(*then_, l1, venv, breaks, f1);
                if let Ok((a, l2, f2)) = trans_stm_spec(*then_, l1, venv, breaks, f1) {
                    lemma_prefix_trans(frags, f1, f2);
                }
            }
        },
        Exp::If { test, then_, else_: Some(else_) } => {
            lemma_fragments_exp(*test, level, venv, breaks, frags);
            if let Ok((te, l1, f1)) = trans_exp_spec(*test, level, venv, breaks, frags) {
                lemma_fragments_stm(*then_, l1, venv, breaks, f1);
                if let Ok((a, l2, f2)) = trans_stm_spec(*then_, l1, venv, breaks, f1) {
                    lemma_fragments_stm(*else_, l2, venv, breaks, f2);
                    if let Ok((b, l3, f3)) = trans_stm_spec(*else_, l2, venv, breaks, f2) {
                        lemma_prefix_trans(frags, f1, f2);
                        lemma_prefix_trans(frags, f2, f3);
                    }
                }
            }
        },
        Exp::Call { .. } => {
            lemma_fragments_exp(e, level, venv, breaks, frags);
        },
        _ => {},
    }
}

/// The list form of the fragment law.
pub proof fn lemma_fragments_many(s: Seq<AST>, level: Level, venv: ValueEnviroment, breaks: Seq<Option<Label>>, frags: Seq<Fragment>)
    ensures
        trans_many_spec(s, level, venv, breaks, frags) matches Ok((es, l, f)) ==> f.len() == frags.len()
            + list_string_literals(s) && f.subrange(0, frags.len() as int) == frags,
    decreases s, 0nat,
{
    if s.len() == 0 {
        assert(frags.subrange(0, frags.len() as int) =~= frags);
    } else {
        lemma_fragments_exp(s[0], level, venv, breaks, frags);
        if let Ok((first, l1, f1)) = trans_exp_spec(s[0], level, venv, breaks, frags) {
            lemma_fragments_many(s.subrange(1, s.len() as int), l1, venv, breaks, f1);
            if let Ok((es, l2, f2)) = trans_many_spec(s.subrange(1, s.len() as int), l1, venv, breaks, f1) {
                lemma_prefix_trans(frags, f1, f2);
            }
        }
    }
}

proof fn lemma_prefix_trans(a: Seq<Fragment>, b: Seq<Fragment>, c: Seq<Fragment>)
    requires
        a.len() <= b.len() <= c.len(),
        b.subrange(0, a.len() as int) == a,
        c.subrange(0, b.len() as int) == b,
    ensures
        c.subrange(0, a.len() as int) == a,
{
    assert(c.subrange(0, a.len() as int) =~= b.subrange(0, a.len() as int));
}

} // verus!
