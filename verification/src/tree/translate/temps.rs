//! Temps: the code that a translation produces reads and writes only the
//! frame pointer and temps drawn from the level's counter during that
//! translation; the temp that holds a conditional's value is none of those
//! that its parts use.
use vstd::prelude::*;
use crate::ast::{AST, Exp};
use crate::tree::{
    Fragment, Label, Level, RelOp, SpecExp, SpecStm, Temp, FIRST_FRESH_TEMP, FRAME_POINTER, exp_uses, exps_uses,
    lemma_seq_view_uses, seq_view, stm_uses, stms_uses,
};
use crate::typecheck::{EnvEntry, ValueEnviroment};
use super::fresh::{lemma_fresh_exp, lemma_fresh_many, lemma_fresh_stm};
use super::{args_size, has_room, static_link, trans_exp_spec, trans_many_spec, trans_size, trans_stm_spec};

verus! {

/// The temp is the frame pointer, or its number lies in `[lo, hi)`.
pub open spec fn temp_drawn(t: Temp, lo: int, hi: int) -> bool {
    t.id == FRAME_POINTER || lo <= t.id < hi
}

/// Every temp that the expression's code uses is the frame pointer or drawn from `[lo, hi)`.
pub open spec fn exp_temps_drawn(e: SpecExp, lo: int, hi: int) -> bool {
    forall|t: Temp| #[trigger] exp_uses(e, t) ==> temp_drawn(t, lo, hi)
}

/// Every temp that the statement's code uses is the frame pointer or drawn from `[lo, hi)`.
pub open spec fn stm_temps_drawn(s: SpecStm, lo: int, hi: int) -> bool {
    forall|t: Temp| #[trigger] stm_uses(s, t) ==> temp_drawn(t, lo, hi)
}

/// Every temp that the expressions' code uses is the frame pointer or drawn from `[lo, hi)`.
pub open spec fn exps_temps_drawn(s: Seq<SpecExp>, lo: int, hi: int) -> bool {
    forall|t: Temp| #[trigger] exps_uses(s, t) ==> temp_drawn(t, lo, hi)
}

/// In `if test then a else b` taken as a value, the temp that holds the
/// value (numbered by the counter once the three parts are translated) is
/// not the frame pointer, and the code of none of the three parts uses it.
pub open spec fn value_temp_apart(
    e: AST,
    level: Level,
    venv: ValueEnviroment,
    breaks: Seq<Option<Label>>,
    frags: Seq<Fragment>,
) -> bool {
    match e.node {
        Exp::If { test, then_, else_: Some(else_) } => match trans_exp_spec(*test, level, venv, breaks, frags) {
            Ok((te, l1, f1)) => match trans_exp_spec(*then_, l1, venv, breaks, f1) {
                Ok((a, l2, f2)) => match trans_exp_spec(*else_, l2, venv, breaks, f2) {
                    Ok((b, l3, f3)) => {
                        let r = Temp { id: l3.next_temp };
                        &&& r.id != FRAME_POINTER
                        &&& !exp_uses(te, r)
                        &&& !exp_uses(a, r)
                        &&& !exp_uses(b, r)
                    },
                    Err(_) => true,
                },
                Err(_) => true,
            },
            Err(_) => true,
        },
        _ => true,
    }
}

proof fn lemma_static_link_uses(d: int, t: Temp)
    ensures
        exp_uses(static_link(d), t) ==> t.id == FRAME_POINTER,
    decreases d,
{
    if d > 0 {
        lemma_static_link_uses(d - 1, t);
    }
}

proof fn lemma_exps_uses_cons(x: SpecExp, s: Seq<SpecExp>, t: Temp)
    ensures
        exps_uses(seq![x] + s, t) == (exp_uses(x, t) || exps_uses(s, t)),
{
    let all = seq![x] + s;
    assert(all[0] == x);
    assert(all.subrange(1, all.len() as int) =~= s);
}

proof fn lemma_stms_uses_step(s: Seq<SpecStm>, k: int, t: Temp)
    requires
        0 <= k < s.len(),
    ensures
        stms_uses(s.subrange(k, s.len() as int), t)
            == (stm_uses(s[k], t) || stms_uses(s.subrange(k + 1, s.len() as int), t)),
{
    let rest = s.subrange(k, s.len() as int);
    assert(rest[0] == s[k]);
    assert(rest.subrange(1, rest.len() as int) =~= s.subrange(k + 1, s.len() as int));
}

/// A list of statements uses a temp when one of them does.
proof fn lemma_stms_uses_of(s: Seq<SpecStm>, t: Temp)
    ensures
        stms_uses(s, t) == exists|k: int| 0 <= k < s.len() && #[trigger] stm_uses(s[k], t),
    decreases s.len(),
{
    if s.len() > 0 {
        let rest = s.subrange(1, s.len() as int);
        lemma_stms_uses_of(rest, t);
        if stms_uses(rest, t) {
            let k = choose|k: int| 0 <= k < rest.len() && #[trigger] stm_uses(rest[k], t);
            assert(stm_uses(s[k + 1], t));
        }
        if exists|k: int| 0 <= k < s.len() && #[trigger] stm_uses(s[k], t) {
            let k = choose|k: int| 0 <= k < s.len() && #[trigger] stm_uses(s[k], t);
            if k > 0 {
                assert(rest[k - 1] == s[k]);
            }
        }
    }
}

/// The code of a translated value expression uses only the frame pointer and
/// temps drawn from the counter during the translation.
pub proof fn lemma_temps_exp(e: AST, level: Level, venv: ValueEnviroment, breaks: Seq<Option<Label>>, frags: Seq<Fragment>)
    requires
        has_room(level, trans_size(e)),
    ensures
        trans_exp_spec(e, level, venv, breaks, frags) matches Ok((x, l, f))
            ==> exp_temps_drawn(x, level.next_temp as int, l.next_temp as int),
    decreases e, 1nat,
{
    let n0 = level.next_temp as int;
    match e.node {
        Exp::Call { func, args } => {
            if venv@.dom().contains(func@) {
                if let EnvEntry::Func { label, .. } = venv@[func@] {
                    lemma_temps_many(args@, level, venv, breaks, frags);
                    if let Ok((es, l, f)) = trans_many_spec(args@, level, venv, breaks, frags) {
                        let sl = static_link(l.nesting_depth as int);
                        let x = SpecExp::Call(Box::new(SpecExp::Name(label)), seq![sl] + es);
                        assert forall|t: Temp| #[trigger] exp_uses(x, t) implies temp_drawn(t, n0, l.next_temp as int) by {
                            lemma_exps_uses_cons(sl, es, t);
                            lemma_static_link_uses(l.nesting_depth as int, t);
                            assert(!exp_uses(SpecExp::Name(label), t));
                            assert(exp_uses(x, t) == exps_uses(seq![sl] + es, t));
                            if exps_uses(es, t) {
                                assert(temp_drawn(t, n0, l.next_temp as int));
                            }
                        }
                    }
                }
            }
        },
        Exp::If { test, then_, else_: Some(else_) } => {
            lemma_fresh_exp(*test, level, venv, breaks, frags);
            lemma_temps_exp(*test, level, venv, breaks, frags);
            if let Ok((te, l1, f1)) = trans_exp_spec(*test, level, venv, breaks, frags) {
                lemma_fresh_exp(*then_, l1, venv, breaks, f1);
                lemma_temps_exp(*then_, l1, venv, breaks, f1);
                if let Ok((a, l2, f2)) = trans_exp_spec(*then_, l1, venv, breaks, f1) {
                    lemma_fresh_exp(*else_, l2, venv, breaks, f2);
                    lemma_temps_exp(*else_, l2, venv, breaks, f2);
                    if let Ok((b, l3, f3)) = trans_exp_spec(*else_, l2, venv, breaks, f2) {
                        let n3 = l3.next_temp as int;
                        let then_label = Label { id: l3.next_label };
                        let join_label = Label { id: (l3.next_label + 1) as u64 };
                        let else_label = Label { id: (l3.next_label + 2) as u64 };
                        let r = Temp { id: l3.next_temp };
                        let stms = seq![
                            SpecStm::CJump(RelOp::GE, te, SpecExp::Const(1), then_label, else_label),
                            SpecStm::Label(then_label),
                            SpecStm::Move(Box::new(SpecExp::Temp(r)), Box::new(a)),
                            SpecStm::Jump(SpecExp::Name(join_label), seq![join_label]),
                            SpecStm::Label(else_label),
                            SpecStm::Move(Box::new(SpecExp::Temp(r)), Box::new(b)),
                            SpecStm::Label(join_label),
                        ];
                        let x = SpecExp::Eseq(Box::new(seq_view(stms)), Box::new(SpecExp::Temp(r)));
                        assert(n3 + 1 <= u64::MAX);
                        assert forall|t: Temp| #[trigger] exp_uses(x, t) implies temp_drawn(t, n0, n3 + 1) by {
                            lemma_seq_view_uses(stms, t);
                            lemma_stms_uses_of(stms, t);
                            assert(!exp_uses(SpecExp::Const(1), t));
                            assert(!exp_uses(SpecExp::Name(join_label), t));
                            assert(exp_uses(SpecExp::Temp(r), t) == (r == t));
                            assert(stm_uses(stms[0], t) == exp_uses(te, t));
                            assert(stm_uses(stms[1], t) == false);
                            assert(stm_uses(stms[2], t) == (t == r || exp_uses(a, t)));
                            assert(stm_uses(stms[3], t) == false);
                            assert(stm_uses(stms[4], t) == false);
                            assert(stm_uses(stms[5], t) == (t == r || exp_uses(b, t)));
                            assert(stm_uses(stms[6], t) == false);
                            if stm_uses(seq_view(stms), t) {
                                let k = choose|k: int| 0 <= k < stms.len() && #[trigger] stm_uses(stms[k], t);
                                assert(k == 0 || k == 2 || k == 5);
                            }
                        }
                    }
                }
            }
        },
        _ => {},
    }
}

/// The code of a translated statement uses only the frame pointer and temps
/// drawn from the counter during the translation.
pub proof fn lemma_temps_stm(e: AST, level: Level, venv: ValueEnviroment, breaks: Seq<Option<Label>>, frags: Seq<Fragment>)
    requires
        has_room(level, trans_size(e)),
    ensures
        trans_stm_spec(e, level, venv, breaks, frags) matches Ok((x, l, f))
            ==> stm_temps_drawn(x, level.next_temp as int, l.next_temp as int),
    decreases e, 2nat,
{
    let n0 = level.next_temp as int;
    match e.node {
        Exp::Break => {
            if breaks.len() > 0 && breaks.last() is Some {
                let target = breaks.last()->0;
                assert forall|t: Temp| !#[trigger] stm_uses(SpecStm::Jump(SpecExp::Name(target), seq![target]), t) by {
                    assert(!exp_uses(SpecExp::Name(target), t));
                }
            }
        },
        Exp::If { test, then_, else_: None } => {
            lemma_fresh_exp(*test, level, venv, breaks, frags);
            lemma_temps_exp(*test, level, venv, breaks, frags);
            if let Ok((te, l1, f1)) = trans_exp_spec(*test, level, venv, breaks, frags) {
                lemma_fresh_stm(*then_, l1, venv, breaks, f1);
                lemma_temps_stm(*then_, l1, venv, breaks, f1);
                if let Ok((a, l2, f2)) = trans_stm_spec(*then_, l1, venv, breaks, f1) {
                    let then_label = Label { id: l2.next_label };
                    let join_label = Label { id: (l2.next_label + 1) as u64 };
                    let stms = seq![
                        SpecStm::CJump(RelOp::GE, te, SpecExp::Const(1), then_label, join_label),
                        SpecStm::Label(then_label),
                        a,
                        SpecStm::Label(join_label),
                    ];
                    assert forall|t: Temp| #[trigger] stm_uses(seq_view(stms), t) implies temp_drawn(t, n0, l2.next_temp as int) by {
                        lemma_seq_view_uses(stms, t);
                        lemma_stms_uses_of(stms, t);
                        assert(!exp_uses(SpecExp::Const(1), t));
                        assert(stm_uses(stms[0], t) == exp_uses(te, t));
                        assert(stm_uses(stms[1], t) == false);
                        assert(stm_uses(stms[2], t) == stm_uses(a, t));
                        assert(stm_uses(stms[3], t) == false);
                        let k = choose|k: int| 0 <= k < stms.len() && #[trigger] stm_uses(stms[k], t);
                        assert(k == 0 || k == 2);
                    }
                }
            }
        },
        Exp::If { test, then_, else_: Some(else_) } => {
            lemma_fresh_exp(*test, level, venv, breaks, frags);
            lemma_temps_exp(*test, level, venv, breaks, frags);
            if let Ok((te, l1, f1)) = trans_exp_spec(*test, level, venv, breaks, frags) {
                lemma_fresh_stm(*then_, l1, venv, breaks, f1);
                lemma_temps_stm(*then_, l1, venv, breaks, f1);
                if let Ok((a, l2, f2)) = trans_stm_spec(*then_, l1, venv, breaks, f1) {
                    lemma_fresh_stm(*else_, l2, venv, breaks, f2);
                    lemma_temps_stm(*else_, l2, venv, breaks, f2);
                    if let Ok((b, l3, f3)) = trans_stm_spec(*else_, l2, venv, breaks, f2) {
                        let then_label = Label { id: l3.next_label };
                        let join_label = Label { id: (l3.next_label + 1) as u64 };
                        let else_label = Label { id: (l3.next_label + 2) as u64 };
                        let stms = seq![
                            SpecStm::CJump(RelOp::GE, te, SpecExp::Const(1), then_label, else_label),
                            SpecStm::Label(then_label),
                            a,
                            SpecStm::Jump(SpecExp::Name(join_label), seq![join_label]),
                            SpecStm::Label(else_label),
                            b,
                            SpecStm::Label(join_label),
                        ];
                        assert forall|t: Temp| #[trigger] stm_uses(seq_view(stms), t) implies temp_drawn(t, n0, l3.next_temp as int) by {
                            lemma_seq_view_uses(stms, t);
                            lemma_stms_uses_of(stms, t);
                            assert(!exp_uses(SpecExp::Const(1), t));
                            assert(!exp_uses(SpecExp::Name(join_label), t));
                            assert(stm_uses(stms[0], t) == exp_uses(te, t));
                            assert(stm_uses(stms[1], t) == false);
                            assert(stm_uses(stms[2], t) == stm_uses(a, t));
                            assert(stm_uses(stms[3], t) == false);
                            assert(stm_uses(stms[4], t) == false);
                            assert(stm_uses(stms[5], t) == stm_uses(b, t));
                            assert(stm_uses(stms[6], t) == false);
                            let k = choose|k: int| 0 <= k < stms.len() && #[trigger] stm_uses(stms[k], t);
                            assert(k == 0 || k == 2 || k == 5);
                        }
                    }
                }
            }
        },
        Exp::Call { .. } => {
            lemma_temps_exp(e, level, venv, breaks, frags);
            if let Ok((ce, l, f)) = trans_exp_spec(e, level, venv, breaks, frags) {
                assert forall|t: Temp| #[trigger] stm_uses(SpecStm::Exp(Box::new(ce)), t) implies temp_drawn(t, n0, l.next_temp as int) by {
                    assert(exp_uses(ce, t));
                }
            }
        },
        _ => {},
    }
}

/// The code of a translated list of expressions uses only the frame pointer
/// and temps drawn from the counter during the translation.
pub proof fn lemma_temps_many(s: Seq<AST>, level: Level, venv: ValueEnviroment, breaks: Seq<Option<Label>>, frags: Seq<Fragment>)
    requires
        has_room(level, args_size(s)),
    ensures
        trans_many_spec(s, level, venv, breaks, frags) matches Ok((es, l, f))
            ==> exps_temps_drawn(es, level.next_temp as int, l.next_temp as int),
    decreases s, 0nat,
{
    if s.len() > 0 {
        let rest = s.subrange(1, s.len() as int);
        lemma_fresh_exp(s[0], level, venv, breaks, frags);
        lemma_temps_exp(s[0], level, venv, breaks, frags);
        if let Ok((first, l1, f1)) = trans_exp_spec(s[0], level, venv, breaks, frags) {
            lemma_fresh_many(rest, l1, venv, breaks, f1);
            lemma_temps_many(rest, l1, venv, breaks, f1);
            if let Ok((es, l2, f2)) = trans_many_spec(rest, l1, venv, breaks, f1) {
                assert forall|t: Temp| #[trigger] exps_uses(seq![first] + es, t) implies temp_drawn(t, level.next_temp as int, l2.next_temp as int) by {
                    lemma_exps_uses_cons(first, es, t);
                }
            }
        }
    }
}

/// The temp that holds a conditional's value is apart from its parts' code,
/// where the counter starts at the first temp that is not the frame pointer.
pub proof fn lemma_value_temp_apart(e: AST, level: Level, venv: ValueEnviroment, breaks: Seq<Option<Label>>, frags: Seq<Fragment>)
    requires
        has_room(level, trans_size(e)),
        level.next_temp >= FIRST_FRESH_TEMP,
    ensures
        value_temp_apart(e, level, venv, breaks, frags),
{
    if let Exp::If { test, then_, else_: Some(else_) } = e.node {
        lemma_fresh_exp(*test, level, venv, breaks, frags);
        lemma_temps_exp(*test, level, venv, breaks, frags);
        if let Ok((te, l1, f1)) = trans_exp_spec(*test, level, venv, breaks, frags) {
            lemma_fresh_exp(*then_, l1, venv, breaks, f1);
            lemma_temps_exp(*then_, l1, venv, breaks, f1);
            if let Ok((a, l2, f2)) = trans_exp_spec(*then_, l1, venv, breaks, f1) {
                lemma_fresh_exp(*else_, l2, venv, breaks, f2);
                lemma_temps_exp(*else_, l2, venv, breaks, f2);
                if let Ok((b, l3, f3)) = trans_exp_spec(*else_, l2, venv, breaks, f2) {
                    let r = Temp { id: l3.next_temp };
                    if exp_uses(te, r) {
                        assert(temp_drawn(r, level.next_temp as int, l1.next_temp as int));
                    }
                    if exp_uses(a, r) {
                        assert(temp_drawn(r, l1.next_temp as int, l2.next_temp as int));
                    }
                    if exp_uses(b, r) {
                        assert(temp_drawn(r, l2.next_temp as int, l3.next_temp as int));
                    }
                    assert(r.id != FRAME_POINTER);
                    assert(!exp_uses(te, r) && !exp_uses(a, r) && !exp_uses(b, r));
                }
            }
        }
    }
}

} // verus!
