//! Translation of string literals.
use vstd::prelude::*;
use crate::ast::{AST, Exp};
use crate::tree::{self, Fragment, Label, Level, SpecExp, newlabel};
use crate::typecheck::ValueEnviroment;
use super::{TransError, exp_result_view, trans_exp_spec, trans_size, translation_laws};
use super::fresh::{frag_label, frags_grow, known_label, labels_below, labels_in, lemma_known_avoided};

verus! {

/// A string literal becomes a fragment under a new label; the expression is
/// that label's address. The new label is none of the labels handed in, and
/// everything handed on lies below the level's counter again.
pub fn trans_exp(
    exp: &AST,
    level: Level,
    _value_env: &ValueEnviroment,
    _breaks_stack: &Vec<Option<Label>>,
    frags: Vec<Fragment>,
) -> (r: Result<(tree::Exp, Level, Vec<Fragment>), TransError>)
    requires
        exp.node is String,
        level.next_label < u64::MAX,
        labels_below(level.next_label as int, _breaks_stack@, frags@, *_value_env),
    ensures
        exp_result_view(r) == trans_exp_spec(*exp, level, *_value_env, _breaks_stack@, frags@),
        translation_laws(r, level, frags@, trans_size(*exp)),
        r matches Ok((_, l, f)) ==> {
            &&& !known_label(frag_label(f@.last()), _breaks_stack@, frags@, *_value_env)
            &&& labels_below(l.next_label as int, _breaks_stack@, f@, *_value_env)
        },
{
    match &exp.node {
        Exp::String(s) => {
            let ghost before = level;
            let ghost handed = frags@;
            let mut level = level;
            let mut frags = frags;
            let l = newlabel(&mut level);
            // Not sure whether the length needs a fragment of its own.
            frags.push(Fragment::ConstString(l, s.clone()));
            proof {
                let lo = before.next_label as int;
                let hi = level.next_label as int;
                assert(handed =~= frags@.subrange(0, handed.len() as int));
                assert(frag_label(frags@[handed.len() as int]) == l);
                assert(frags_grow(handed, frags@, lo, hi));
                assert(labels_in(seq![l], lo, hi));
                lemma_known_avoided(seq![l], lo, hi, _breaks_stack@, handed, frags@, *_value_env);
                assert(seq![l][0] == l);
            }
            Ok((tree::Exp::NAME(l), level, frags))
        },
        _ => {
            assert(false);
            Err(TransError::Unsupported(exp.pos))
        },
    }
}

/// Two string literals translated one after the other, the second at the
/// level and with the fragments that the first handed on, get two distinct
/// labels and a fragment each, in order, even where their texts are equal:
/// equal strings are not merged.
pub proof fn lemma_literals_get_own_fragments(
    e1: AST,
    e2: AST,
    level: Level,
    venv: ValueEnviroment,
    breaks: Seq<Option<Label>>,
    frags: Seq<Fragment>,
)
    requires
        e1.node is String,
        e2.node is String,
        level.next_label + 2 <= u64::MAX,
    ensures
        e1.node matches Exp::String(s1)
        && e2.node matches Exp::String(s2)
        && trans_exp_spec(e1, level, venv, breaks, frags) matches Ok((t1, lv1, f1))
        && trans_exp_spec(e2, lv1, venv, breaks, f1) matches Ok((t2, lv2, f2))
        && t1 matches SpecExp::Name(l1)
        && t2 matches SpecExp::Name(l2)
        && l1 != l2
        && f1 == frags.push(Fragment::ConstString(l1, s1))
        && f2 == f1.push(Fragment::ConstString(l2, s2))
        && f2.len() == frags.len() + 2
        && lv2.next_label == level.next_label + 2,
{
}

} // verus!
