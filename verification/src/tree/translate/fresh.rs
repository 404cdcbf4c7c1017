//! Fresh labels: every label that translated code defines was drawn from the
//! level's counter during that translation, and no label is defined twice.
use vstd::prelude::*;
use crate::ast::{AST, Exp};
use crate::tree::{
    Fragment, Label, Level, RelOp, SpecExp, SpecStm, Temp, exp_labels, exps_labels, lemma_seq_view_labels,
    seq_view, stm_labels, stms_labels,
};
use crate::typecheck::{EnvEntry, ValueEnviroment};
use super::{
    args_size, has_room, level_advance, static_link, trans_exp_spec, trans_many_spec, trans_size,
    trans_stm_spec,
};

verus! {

/// Every label's number lies in `[lo, hi)`.
pub open spec fn labels_in(s: Seq<Label>, lo: int, hi: int) -> bool {
    forall|i: int| 0 <= i < s.len() ==> lo <= (#[trigger] s[i]).id < hi
}

/// No label twice, and each drawn from `[lo, hi)`.
pub open spec fn fresh_labels(s: Seq<Label>, lo: int, hi: int) -> bool {
    s.no_duplicates() && labels_in(s, lo, hi)
}

/// The label a fragment is placed under.
pub open spec fn frag_label(f: Fragment) -> Label {
    match f {
        Fragment::ConstString(l, _) => l,
    }
}

/// `after` keeps `before` and adds only fragments under labels drawn from `[lo, hi)`.
pub open spec fn frags_grow(before: Seq<Fragment>, after: Seq<Fragment>, lo: int, hi: int) -> bool {
    &&& before.is_prefix_of(after)
    &&& forall|i: int| before.len() <= i < after.len() ==> lo <= (#[trigger] frag_label(after[i])).id < hi
}

/// The entry is a function under label `l`.
pub open spec fn is_func_labelled(e: EnvEntry, l: Label) -> bool {
    match e {
        EnvEntry::Func { label, .. } => label == l,
        _ => false,
    }
}

/// A label that translation is handed: a loop's end on the break stack, a
/// fragment's label, or a function's label in the value environment.
pub open spec fn known_label(l: Label, breaks: Seq<Option<Label>>, frags: Seq<Fragment>, venv: ValueEnviroment) -> bool {
    ||| exists|i: int| 0 <= i < breaks.len() && #[trigger] breaks[i] == Some(l)
    ||| exists|i: int| 0 <= i < frags.len() && #[trigger] frag_label(frags[i]) == l
    ||| exists|k: Seq<char>| #[trigger] venv@.dom().contains(k) && is_func_labelled(venv@[k], l)
}

/// Every label that translation is handed lies below `next`, the level's
/// next label number: it was drawn from the same counter earlier.
pub open spec fn labels_below(next: int, breaks: Seq<Option<Label>>, frags: Seq<Fragment>, venv: ValueEnviroment) -> bool {
    &&& forall|i: int| 0 <= i < breaks.len() ==> (#[trigger] breaks[i] matches Some(l) ==> l.id < next)
    &&& forall|i: int| 0 <= i < frags.len() ==> (#[trigger] frag_label(frags[i])).id < next
    &&& forall|k: Seq<char>| #[trigger] venv@.dom().contains(k) ==> (venv@[k] matches EnvEntry::Func { label, .. } ==> label.id < next)
}

/// None of the labels is one that translation was handed.
pub open spec fn none_known(s: Seq<Label>, breaks: Seq<Option<Label>>, frags: Seq<Fragment>, venv: ValueEnviroment) -> bool {
    forall|k: int| 0 <= k < s.len() ==> !known_label(#[trigger] s[k], breaks, frags, venv)
}

proof fn lemma_frags_grow_refl(f: Seq<Fragment>, lo: int, hi: int)
    ensures
        frags_grow(f, f, lo, hi),
{
    assert(f =~= f.subrange(0, f.len() as int));
}

proof fn lemma_frags_grow_trans(f0: Seq<Fragment>, f1: Seq<Fragment>, f2: Seq<Fragment>, n0: int, n1: int, n2: int)
    requires
        frags_grow(f0, f1, n0, n1),
        frags_grow(f1, f2, n1, n2),
        n0 <= n1 <= n2,
    ensures
        frags_grow(f0, f2, n0, n2),
{
    assert forall|i: int| f0.len() <= i < f2.len() implies n0 <= (#[trigger] frag_label(f2[i])).id < n2 by {
        if i < f1.len() {
            assert(f2[i] == f1[i]);
        }
    }
    assert forall|i: int| 0 <= i < f0.len() implies f0[i] == f2[i] by {
        assert(f0[i] == f1[i]);
        assert(f1[i] == f2[i]);
    }
    assert(f0 =~= f2.subrange(0, f0.len() as int));
}

/// Labels drawn from `[lo, hi)` are none of those handed in below `lo`; and
/// after the translation, everything handed on lies below `hi`.
pub proof fn lemma_known_avoided(
    s: Seq<Label>,
    lo: int,
    hi: int,
    breaks: Seq<Option<Label>>,
    frags: Seq<Fragment>,
    f: Seq<Fragment>,
    venv: ValueEnviroment,
)
    requires
        labels_below(lo, breaks, frags, venv),
        labels_in(s, lo, hi),
        frags_grow(frags, f, lo, hi),
        lo <= hi,
    ensures
        none_known(s, breaks, frags, venv),
        labels_below(hi, breaks, f, venv),
{
    assert forall|k: int| 0 <= k < s.len() implies !known_label(#[trigger] s[k], breaks, frags, venv) by {
        let l = s[k];
        assert(l.id >= lo);
        if exists|i: int| 0 <= i < breaks.len() && #[trigger] breaks[i] == Some(l) {
            let i = choose|i: int| 0 <= i < breaks.len() && #[trigger] breaks[i] == Some(l);
            assert(breaks[i] matches Some(m) ==> m.id < lo);
        }
        if exists|i: int| 0 <= i < frags.len() && #[trigger] frag_label(frags[i]) == l {
            let i = choose|i: int| 0 <= i < frags.len() && #[trigger] frag_label(frags[i]) == l;
            assert(frag_label(frags[i]).id < lo);
        }
        if exists|key: Seq<char>| #[trigger] venv@.dom().contains(key) && is_func_labelled(venv@[key], l) {
            let key = choose|key: Seq<char>| #[trigger] venv@.dom().contains(key) && is_func_labelled(venv@[key], l);
            assert(venv@[key] matches EnvEntry::Func { label, .. } ==> label.id < lo);
        }
    }
    assert forall|i: int| 0 <= i < f.len() implies (#[trigger] frag_label(f[i])).id < hi by {
        if i < frags.len() {
            assert(f[i] == frags[i]);
            assert(frag_label(frags[i]).id < lo);
        }
    }
}

proof fn lemma_join(a: Seq<Label>, b: Seq<Label>, lo: int, hi: int)
    requires
        a.no_duplicates(),
        b.no_duplicates(),
        labels_in(b, lo, hi),
        forall|i: int| 0 <= i < a.len() ==> (#[trigger] a[i]).id < lo || a[i].id >= hi,
    ensures
        (a + b).no_duplicates(),
{
    let s = a + b;
    assert forall|i: int, j: int| 0 <= i < s.len() && 0 <= j < s.len() && i != j implies s[i] != s[j] by {
        if i < a.len() && j >= a.len() {
            assert(s[j] == b[j - a.len()]);
            assert(s[i] == a[i]);
        } else if i >= a.len() && j < a.len() {
            assert(s[i] == b[i - a.len()]);
            assert(s[j] == a[j]);
        } else if i >= a.len() && j >= a.len() {
            assert(s[i] == b[i - a.len()]);
            assert(s[j] == b[j - a.len()]);
        } else {
            assert(s[i] == a[i] && s[j] == a[j]);
        }
    }
}

/// The labels of a conditional with two branches: three parts translated in
/// turn, then the three labels drawn after them.
proof fn lemma_if_else_labels(a: Seq<Label>, b: Seq<Label>, c: Seq<Label>, n0: int, n1: int, n2: int, n3: int, t: Label, x: Label, j: Label)
    requires
        fresh_labels(a, n0, n1),
        fresh_labels(b, n1, n2),
        fresh_labels(c, n2, n3),
        n0 <= n1 <= n2 <= n3,
        t.id == n3,
        j.id == n3 + 1,
        x.id == n3 + 2,
    ensures
        fresh_labels(a + seq![t] + b + seq![x] + c + seq![j], n0, n3 + 3),
{
    let s1 = a + seq![t];
    lemma_join(a, seq![t], n3, n3 + 1);
    assert forall|i: int| 0 <= i < s1.len() implies (#[trigger] s1[i]).id < n1 || s1[i].id >= n2 by {
        if i < a.len() { assert(s1[i] == a[i]); }
    }
    lemma_join(s1, b, n1, n2);
    let s2 = s1 + b;
    assert forall|i: int| 0 <= i < s2.len() implies (#[trigger] s2[i]).id < n3 + 2 || s2[i].id >= n3 + 3 by {
        if i < s1.len() { assert(s2[i] == s1[i]); if i < a.len() { assert(s1[i] == a[i]); } }
        else { assert(s2[i] == b[i - s1.len()]); }
    }
    lemma_join(s2, seq![x], n3 + 2, n3 + 3);
    let s3 = s2 + seq![x];
    assert forall|i: int| 0 <= i < s3.len() implies (#[trigger] s3[i]).id < n2 || s3[i].id >= n3 by {
        if i < s2.len() { assert(s3[i] == s2[i]);
            if i < s1.len() { assert(s2[i] == s1[i]); if i < a.len() { assert(s1[i] == a[i]); } }
            else { assert(s2[i] == b[i - s1.len()]); } }
    }
    lemma_join(s3, c, n2, n3);
    let s4 = s3 + c;
    assert forall|i: int| 0 <= i < s4.len() implies (#[trigger] s4[i]).id < n3 + 1 || s4[i].id >= n3 + 2 by {
        if i < s3.len() { assert(s4[i] == s3[i]);
            if i < s2.len() { assert(s3[i] == s2[i]);
                if i < s1.len() { assert(s2[i] == s1[i]); if i < a.len() { assert(s1[i] == a[i]); } }
                else { assert(s2[i] == b[i - s1.len()]); } } }
        else { assert(s4[i] == c[i - s3.len()]); }
    }
    lemma_join(s4, seq![j], n3 + 1, n3 + 2);
    let s5 = s4 + seq![j];
    assert forall|i: int| 0 <= i < s5.len() implies n0 <= (#[trigger] s5[i]).id < n3 + 3 by {
        if i < s4.len() { assert(s5[i] == s4[i]);
            if i < s3.len() { assert(s4[i] == s3[i]);
                if i < s2.len() { assert(s3[i] == s2[i]);
                    if i < s1.len() { assert(s2[i] == s1[i]); if i < a.len() { assert(s1[i] == a[i]); } }
                    else { assert(s2[i] == b[i - s1.len()]); } } }
            else { assert(s4[i] == c[i - s3.len()]); } }
    }
}

/// The labels of a conditional with one branch.
proof fn lemma_if_labels(a: Seq<Label>, b: Seq<Label>, n0: int, n1: int, n2: int, t: Label, j: Label)
    requires
        fresh_labels(a, n0, n1),
        fresh_labels(b, n1, n2),
        n0 <= n1 <= n2,
        t.id == n2,
        j.id == n2 + 1,
    ensures
        fresh_labels(a + seq![t] + b + seq![j], n0, n2 + 2),
{
    let s1 = a + seq![t];
    lemma_join(a, seq![t], n2, n2 + 1);
    assert forall|i: int| 0 <= i < s1.len() implies (#[trigger] s1[i]).id < n1 || s1[i].id >= n2 by {
        if i < a.len() { assert(s1[i] == a[i]); }
    }
    lemma_join(s1, b, n1, n2);
    let s2 = s1 + b;
    assert forall|i: int| 0 <= i < s2.len() implies (#[trigger] s2[i]).id < n2 + 1 || s2[i].id >= n2 + 2 by {
        if i < s1.len() { assert(s2[i] == s1[i]); if i < a.len() { assert(s1[i] == a[i]); } }
        else { assert(s2[i] == b[i - s1.len()]); }
    }
    lemma_join(s2, seq![j], n2 + 1, n2 + 2);
    let s3 = s2 + seq![j];
    assert forall|i: int| 0 <= i < s3.len() implies n0 <= (#[trigger] s3[i]).id < n2 + 2 by {
        if i < s2.len() { assert(s3[i] == s2[i]);
            if i < s1.len() { assert(s2[i] == s1[i]); if i < a.len() { assert(s1[i] == a[i]); } }
            else { assert(s2[i] == b[i - s1.len()]); } }
    }
}

proof fn lemma_static_link_labels(d: int)
    ensures
        exp_labels(static_link(d)) == Seq::<Label>::empty(),
    decreases d,
{
    if d > 0 {
        lemma_static_link_labels(d - 1);
    } else {
        assert(exp_labels(static_link(d)) =~= Seq::<Label>::empty());
    }
}

proof fn lemma_exps_labels_cons(x: SpecExp, s: Seq<SpecExp>)
    ensures
        exps_labels(seq![x] + s) == exp_labels(x) + exps_labels(s),
{
    let all = seq![x] + s;
    assert(all[0] == x);
    assert(all.subrange(1, all.len() as int) =~= s);
}

proof fn lemma_stms_labels_cons(x: SpecStm, s: Seq<SpecStm>)
    ensures
        stms_labels(seq![x] + s) == stm_labels(x) + stms_labels(s),
{
    let all = seq![x] + s;
    assert(all[0] == x);
    assert(all.subrange(1, all.len() as int) =~= s);
}

proof fn lemma_stms_labels_step(s: Seq<SpecStm>, k: int)
    requires
        0 <= k < s.len(),
    ensures
        stms_labels(s.subrange(k, s.len() as int)) == stm_labels(s[k]) + stms_labels(s.subrange(k + 1, s.len() as int)),
{
    lemma_stms_labels_cons(s[k], s.subrange(k + 1, s.len() as int));
    assert(seq![s[k]] + s.subrange(k + 1, s.len() as int) =~= s.subrange(k, s.len() as int));
}

/// The labels that a list of statements defines: those of each, in order.
proof fn lemma_stms_labels_of(s: Seq<SpecStm>)
    ensures
        s.len() == 4 ==> stms_labels(s) == stm_labels(s[0]) + stm_labels(s[1]) + stm_labels(s[2]) + stm_labels(s[3]),
        s.len() == 7 ==> stms_labels(s) == stm_labels(s[0]) + stm_labels(s[1]) + stm_labels(s[2]) + stm_labels(s[3])
            + stm_labels(s[4]) + stm_labels(s[5]) + stm_labels(s[6]),
{
    let n = s.len() as int;
    assert(s.subrange(0, n) =~= s);
    assert(stms_labels(s.subrange(n, n)) =~= Seq::<Label>::empty());
    if n == 4 {
        lemma_stms_labels_step(s, 3);
        lemma_stms_labels_step(s, 2);
        lemma_stms_labels_step(s, 1);
        lemma_stms_labels_step(s, 0);
        assert(stms_labels(s) =~= stm_labels(s[0]) + stm_labels(s[1]) + stm_labels(s[2]) + stm_labels(s[3]));
    }
    if n == 7 {
        lemma_stms_labels_step(s, 6);
        lemma_stms_labels_step(s, 5);
        lemma_stms_labels_step(s, 4);
        lemma_stms_labels_step(s, 3);
        lemma_stms_labels_step(s, 2);
        lemma_stms_labels_step(s, 1);
        lemma_stms_labels_step(s, 0);
        assert(stms_labels(s) =~= stm_labels(s[0]) + stm_labels(s[1]) + stm_labels(s[2]) + stm_labels(s[3])
            + stm_labels(s[4]) + stm_labels(s[5]) + stm_labels(s[6]));
    }
}

/// Translating a value expression keeps the level's laws, and the labels its
/// code defines are fresh: drawn from the counter during the translation,
/// none twice.
pub proof fn lemma_fresh_exp(e: AST, level: Level, venv: ValueEnviroment, breaks: Seq<Option<Label>>, frags: Seq<Fragment>)
    requires
        has_room(level, trans_size(e)),
    ensures
        trans_exp_spec(e, level, venv, breaks, frags) matches Ok((t, l, f)) ==> level_advance(level, l, trans_size(e))
            && fresh_labels(exp_labels(t), level.next_label as int, l.next_label as int)
            && frags_grow(frags, f, level.next_label as int, l.next_label as int),
    decreases e, 1nat,
{
    let n0 = level.next_label as int;
    match e.node {
        Exp::Int(i) => {
            assert(exp_labels(SpecExp::Const(i)) =~= Seq::<Label>::empty());
            lemma_frags_grow_refl(frags, n0, n0);
        },
        Exp::String(st) => {
            assert(exp_labels(SpecExp::Name(Label { id: level.next_label })) =~= Seq::<Label>::empty());
            let f = frags.push(Fragment::ConstString(Label { id: level.next_label }, st));
            assert(frags =~= f.subrange(0, frags.len() as int));
            assert(frag_label(f[frags.len() as int]).id == n0);
        },
        Exp::Call { func, args } => {
            if venv@.dom().contains(func@) {
                if let EnvEntry::Func { label, .. } = venv@[func@] {
                    lemma_fresh_many(args@, level, venv, breaks, frags);
                    if let Ok((es, l, f)) = trans_many_spec(args@, level, venv, breaks, frags) {
                        let sl = static_link(l.nesting_depth as int);
                        lemma_static_link_labels(l.nesting_depth as int);
                        lemma_exps_labels_cons(sl, es);
                        assert(exp_labels(SpecExp::Name(label)) =~= Seq::<Label>::empty());
                        assert(exp_labels(SpecExp::Call(Box::new(SpecExp::Name(label)), seq![sl] + es)) =~= exps_labels(es));
                    }
                }
            }
        },
        Exp::If { test, then_, else_: Some(else_) } => {
            lemma_fresh_exp(*test, level, venv, breaks, frags);
            if let Ok((te, l1, f1)) = trans_exp_spec(*test, level, venv, breaks, frags) {
                lemma_fresh_exp(*then_, l1, venv, breaks, f1);
                if let Ok((then_e, l2, f2)) = trans_exp_spec(*then_, l1, venv, breaks, f1) {
                    lemma_fresh_exp(*else_, l2, venv, breaks, f2);
                    if let Ok((else_e, l3, f3)) = trans_exp_spec(*else_, l2, venv, breaks, f2) {
                        let n3 = l3.next_label as int;
                        let then_label = Label { id: l3.next_label };
                        let join_label = Label { id: (l3.next_label + 1) as u64 };
                        let else_label = Label { id: (l3.next_label + 2) as u64 };
                        let result = Temp { id: l3.next_temp };
                        let stms = seq![
                            SpecStm::CJump(RelOp::GE, te, SpecExp::Const(1), then_label, else_label),
                            SpecStm::Label(then_label),
                            SpecStm::Move(Box::new(SpecExp::Temp(result)), Box::new(then_e)),
                            SpecStm::Jump(SpecExp::Name(join_label), seq![join_label]),
                            SpecStm::Label(else_label),
                            SpecStm::Move(Box::new(SpecExp::Temp(result)), Box::new(else_e)),
                            SpecStm::Label(join_label),
                        ];
                        lemma_seq_view_labels(stms);
                        lemma_stms_labels_of(stms);
                        let empty = Seq::<Label>::empty();
                        assert(exp_labels(SpecExp::Const(1)) =~= empty);
                        assert(exp_labels(SpecExp::Temp(result)) =~= empty);
                        assert(exp_labels(SpecExp::Name(join_label)) =~= empty);
                        assert(stm_labels(stms[0]) =~= exp_labels(te));
                        assert(stm_labels(stms[2]) =~= exp_labels(then_e));
                        assert(stm_labels(stms[3]) =~= empty);
                        assert(stm_labels(stms[5]) =~= exp_labels(else_e));
                        let labels = exp_labels(te) + seq![then_label] + exp_labels(then_e) + seq![else_label]
                            + exp_labels(else_e) + seq![join_label];
                        assert(stms_labels(stms) =~= labels);
                        lemma_if_else_labels(exp_labels(te), exp_labels(then_e), exp_labels(else_e), n0,
                            l1.next_label as int, l2.next_label as int, n3, then_label, else_label, join_label);
                        assert(exp_labels(SpecExp::Eseq(Box::new(seq_view(stms)), Box::new(SpecExp::Temp(result))))
                            =~= labels);
                        lemma_frags_grow_trans(frags, f1, f2, n0, l1.next_label as int, l2.next_label as int);
                        lemma_frags_grow_trans(frags, f2, f3, n0, l2.next_label as int, n3);
                    }
                }
            }
        },
        _ => {},
    }
}

/// Translating a statement keeps the level's laws, and the labels its code
/// defines are fresh.
pub proof fn lemma_fresh_stm(e: AST, level: Level, venv: ValueEnviroment, breaks: Seq<Option<Label>>, frags: Seq<Fragment>)
    requires
        has_room(level, trans_size(e)),
    ensures
        trans_stm_spec(e, level, venv, breaks, frags) matches Ok((t, l, f)) ==> level_advance(level, l, trans_size(e))
            && fresh_labels(stm_labels(t), level.next_label as int, l.next_label as int)
            && frags_grow(frags, f, level.next_label as int, l.next_label as int),
    decreases e, 2nat,
{
    let n0 = level.next_label as int;
    let empty = Seq::<Label>::empty();
    match e.node {
        Exp::Break => {
            lemma_frags_grow_refl(frags, n0, n0);
            if breaks.len() > 0 && breaks.last() is Some {
                let l = breaks.last()->0;
                assert(exp_labels(SpecExp::Name(l)) =~= empty);
            }
        },
        Exp::If { test, then_, else_: None } => {
            lemma_fresh_exp(*test, level, venv, breaks, frags);
            if let Ok((te, l1, f1)) = trans_exp_spec(*test, level, venv, breaks, frags) {
                lemma_fresh_stm(*then_, l1, venv, breaks, f1);
                if let Ok((then_s, l2, f2)) = trans_stm_spec(*then_, l1, venv, breaks, f1) {
                    let then_label = Label { id: l2.next_label };
                    let join_label = Label { id: (l2.next_label + 1) as u64 };
                    let stms = seq![
                        SpecStm::CJump(RelOp::GE, te, SpecExp::Const(1), then_label, join_label),
                        SpecStm::Label(then_label),
                        then_s,
                        SpecStm::Label(join_label),
                    ];
                    lemma_seq_view_labels(stms);
                    lemma_stms_labels_of(stms);
                    assert(exp_labels(SpecExp::Const(1)) =~= empty);
                    assert(stm_labels(stms[0]) =~= exp_labels(te));
                    let labels = exp_labels(te) + seq![then_label] + stm_labels(then_s) + seq![join_label];
                    assert(stms_labels(stms) =~= labels);
                    lemma_if_labels(exp_labels(te), stm_labels(then_s), n0, l1.next_label as int,
                        l2.next_label as int, then_label, join_label);
                    lemma_frags_grow_trans(frags, f1, f2, n0, l1.next_label as int, l2.next_label as int);
                }
            }
        },
        Exp::If { test, then_, else_: Some(else_) } => {
            lemma_fresh_exp(*test, level, venv, breaks, frags);
            if let Ok((te, l1, f1)) = trans_exp_spec(*test, level, venv, breaks, frags) {
                lemma_fresh_stm(*then_, l1, venv, breaks, f1);
                if let Ok((then_s, l2, f2)) = trans_stm_spec(*then_, l1, venv, breaks, f1) {
                    lemma_fresh_stm(*else_, l2, venv, breaks, f2);
                    if let Ok((else_s, l3, f3)) = trans_stm_spec(*else_, l2, venv, breaks, f2) {
                        let n3 = l3.next_label as int;
                        let then_label = Label { id: l3.next_label };
                        let join_label = Label { id: (l3.next_label + 1) as u64 };
                        let else_label = Label { id: (l3.next_label + 2) as u64 };
                        let stms = seq![
                            SpecStm::CJump(RelOp::GE, te, SpecExp::Const(1), then_label, else_label),
                            SpecStm::Label(then_label),
                            then_s,
                            SpecStm::Jump(SpecExp::Name(join_label), seq![join_label]),
                            SpecStm::Label(else_label),
                            else_s,
                            SpecStm::Label(join_label),
                        ];
                        lemma_seq_view_labels(stms);
                        lemma_stms_labels_of(stms);
                        assert(exp_labels(SpecExp::Const(1)) =~= empty);
                        assert(exp_labels(SpecExp::Name(join_label)) =~= empty);
                        assert(stm_labels(stms[0]) =~= exp_labels(te));
                        assert(stm_labels(stms[3]) =~= empty);
                        let labels = exp_labels(te) + seq![then_label] + stm_labels(then_s) + seq![else_label]
                            + stm_labels(else_s) + seq![join_label];
                        assert(stms_labels(stms) =~= labels);
                        lemma_if_else_labels(exp_labels(te), stm_labels(then_s), stm_labels(else_s), n0,
                            l1.next_label as int, l2.next_label as int, n3, then_label, else_label, join_label);
                        lemma_frags_grow_trans(frags, f1, f2, n0, l1.next_label as int, l2.next_label as int);
                        lemma_frags_grow_trans(frags, f2, f3, n0, l2.next_label as int, n3);
                    }
                }
            }
        },
        Exp::Call { .. } => {
            lemma_fresh_exp(e, level, venv, breaks, frags);
        },
        _ => {},
    }
}

/// Translating a list of expressions keeps the level's laws, and the labels
/// their code defines are fresh.
pub proof fn lemma_fresh_many(s: Seq<AST>, level: Level, venv: ValueEnviroment, breaks: Seq<Option<Label>>, frags: Seq<Fragment>)
    requires
        has_room(level, args_size(s)),
    ensures
        trans_many_spec(s, level, venv, breaks, frags) matches Ok((es, l, f)) ==> level_advance(level, l, args_size(s))
            && fresh_labels(exps_labels(es), level.next_label as int, l.next_label as int)
            && frags_grow(frags, f, level.next_label as int, l.next_label as int),
    decreases s, 0nat,
{
    if s.len() == 0 {
        assert(exps_labels(Seq::<SpecExp>::empty()) =~= Seq::<Label>::empty());
        lemma_frags_grow_refl(frags, level.next_label as int, level.next_label as int);
    } else {
        let rest = s.subrange(1, s.len() as int);
        lemma_fresh_exp(s[0], level, venv, breaks, frags);
        if let Ok((first, l1, f1)) = trans_exp_spec(s[0], level, venv, breaks, frags) {
            lemma_fresh_many(rest, l1, venv, breaks, f1);
            if let Ok((es, l2, f2)) = trans_many_spec(rest, l1, venv, breaks, f1) {
                lemma_exps_labels_cons(first, es);
                lemma_frags_grow_trans(frags, f1, f2, level.next_label as int, l1.next_label as int, l2.next_label as int);
                let a = exp_labels(first);
                assert forall|i: int| 0 <= i < a.len() implies (#[trigger] a[i]).id < l1.next_label || a[i].id >= l2.next_label by {}
                lemma_join(a, exps_labels(es), l1.next_label as int, l2.next_label as int);
                let all = a + exps_labels(es);
                assert forall|i: int| 0 <= i < all.len() implies level.next_label <= (#[trigger] all[i]).id < l2.next_label by {
                    if i < a.len() {
                        assert(all[i] == a[i]);
                    } else {
                        assert(all[i] == exps_labels(es)[i - a.len()]);
                    }
                }
            }
        }
    }
}

/// What translation promises of labels: those its code defines are drawn
/// fresh from the counter, none twice; none of them is a label it was handed;
/// the fragments it adds sit under labels drawn from the counter too, above
/// every label it was handed; and everything it hands on lies below the
/// level's counter again.
pub open spec fn keeps_clear(
    labels: Seq<Label>,
    before: Level,
    after: Level,
    breaks: Seq<Option<Label>>,
    frags: Seq<Fragment>,
    f: Seq<Fragment>,
    venv: ValueEnviroment,
) -> bool {
    &&& fresh_labels(labels, before.next_label as int, after.next_label as int)
    &&& none_known(labels, breaks, frags, venv)
    &&& frags_grow(frags, f, before.next_label as int, after.next_label as int)
    &&& labels_below(after.next_label as int, breaks, f, venv)
}

/// A value expression's translation keeps clear of the labels it is handed.
pub proof fn lemma_exp_keeps_clear(e: AST, level: Level, venv: ValueEnviroment, breaks: Seq<Option<Label>>, frags: Seq<Fragment>)
    requires
        has_room(level, trans_size(e)),
        labels_below(level.next_label as int, breaks, frags, venv),
    ensures
        trans_exp_spec(e, level, venv, breaks, frags) matches Ok((t, l, f)) ==> keeps_clear(exp_labels(t), level, l, breaks, frags, f, venv),
{
    lemma_fresh_exp(e, level, venv, breaks, frags);
    if let Ok((t, l, f)) = trans_exp_spec(e, level, venv, breaks, frags) {
        lemma_known_avoided(exp_labels(t), level.next_label as int, l.next_label as int, breaks, frags, f, venv);
    }
}

/// A statement's translation keeps clear of the labels it is handed.
pub proof fn lemma_stm_keeps_clear(e: AST, level: Level, venv: ValueEnviroment, breaks: Seq<Option<Label>>, frags: Seq<Fragment>)
    requires
        has_room(level, trans_size(e)),
        labels_below(level.next_label as int, breaks, frags, venv),
    ensures
        trans_stm_spec(e, level, venv, breaks, frags) matches Ok((t, l, f)) ==> keeps_clear(stm_labels(t), level, l, breaks, frags, f, venv),
{
    lemma_fresh_stm(e, level, venv, breaks, frags);
    if let Ok((t, l, f)) = trans_stm_spec(e, level, venv, breaks, frags) {
        lemma_known_avoided(stm_labels(t), level.next_label as int, l.next_label as int, breaks, frags, f, venv);
    }
}

/// A list's translation keeps clear of the labels it is handed.
pub proof fn lemma_many_keeps_clear(s: Seq<AST>, level: Level, venv: ValueEnviroment, breaks: Seq<Option<Label>>, frags: Seq<Fragment>)
    requires
        has_room(level, args_size(s)),
        labels_below(level.next_label as int, breaks, frags, venv),
    ensures
        trans_many_spec(s, level, venv, breaks, frags) matches Ok((es, l, f)) ==> keeps_clear(exps_labels(es), level, l, breaks, frags, f, venv),
{
    lemma_fresh_many(s, level, venv, breaks, frags);
    if let Ok((es, l, f)) = trans_many_spec(s, level, venv, breaks, frags) {
        lemma_known_avoided(exps_labels(es), level.next_label as int, l.next_label as int, breaks, frags, f, venv);
    }
}

} // verus!
