use hector::ast::{boxed_ast, make_ast, Exp, Symbol, AST};
use hector::tree::translate::varexp::generate_static_link;
use hector::tree::translate::{callexp, ifexp, trans_exp, trans_stm, translate_many_exp, TransError};
use hector::tree::{self, newlabel, newtemp, Fragment, Label, Level, RelOp, Stm, Temp, FRAME_POINTER};
use hector::typecheck::initial_value_env;

use tree::Exp::{CALL, CONST, ESEQ, MEM, NAME, TEMP};
use tree::Stm::{CJUMP, EXP, JUMP, LABEL, MOVE, SEQ};

fn if_exp(test: Exp, then_: Exp, else_: Option<Exp>) -> AST {
    make_ast(Exp::If { test: boxed_ast(test), then_: boxed_ast(then_), else_: else_.map(boxed_ast) })
}

fn call(func: &str, args: Vec<Exp>) -> Exp {
    Exp::Call { func: Symbol::from(func), args: args.into_iter().map(make_ast).collect() }
}

fn b<T>(t: T) -> Box<T> {
    Box::new(t)
}

/// Statements joined to the right, written out by hand.
fn seqs(mut v: Vec<Stm>) -> Stm {
    let mut acc = v.pop().unwrap();
    while let Some(s) = v.pop() {
        acc = SEQ(b(s), b(acc));
    }
    acc
}

#[test]
fn if_with_else_as_value() {
    let exp = if_exp(Exp::Int(1), Exp::Int(2), Some(Exp::Int(3)));
    let (code, level, frags) =
        ifexp::trans_exp(&exp, Level::outermost(), &initial_value_env(), &vec![], vec![]).expect("should translate");
    let (t, j, x, r) = (Label { id: 16 }, Label { id: 17 }, Label { id: 18 }, Temp { id: 1 });
    let body = seqs(vec![
        CJUMP(RelOp::GE, CONST(1), CONST(1), t, x),
        LABEL(t),
        MOVE(b(TEMP(r)), b(CONST(2))),
        JUMP(NAME(j), vec![j]),
        LABEL(x),
        MOVE(b(TEMP(r)), b(CONST(3))),
        LABEL(j),
    ]);
    let expected = ESEQ(b(body), b(TEMP(r)));
    assert_eq!(code, expected);
    assert_eq!(level, Level { nesting_depth: 0, next_label: 19, next_temp: 2 });
    assert!(frags.is_empty());
}

#[test]
fn if_without_else_as_statement() {
    let exp = if_exp(Exp::Int(1), Exp::Break, None);
    let (code, level, _) = ifexp::trans_stm(&exp, Level::outermost(), &initial_value_env(), &vec![Some(Label { id: 5 })], vec![])
        .expect("should translate");
    let (t, j) = (Label { id: 16 }, Label { id: 17 });
    let expected = seqs(vec![
        CJUMP(RelOp::GE, CONST(1), CONST(1), t, j),
        LABEL(t),
        JUMP(NAME(Label { id: 5 }), vec![Label { id: 5 }]),
        LABEL(j),
    ]);
    assert_eq!(code, expected);
    assert_eq!(level.next_label, 18);
    assert_eq!(level.next_temp, 1);
}

#[test]
fn if_with_else_as_statement() {
    let exp = if_exp(Exp::Int(0), Exp::Break, Some(call("flush", vec![])));
    let (code, level, _) = ifexp::trans_stm(&exp, Level::outermost(), &initial_value_env(), &vec![Some(Label { id: 5 })], vec![])
        .expect("should translate");
    let (t, j, x) = (Label { id: 16 }, Label { id: 17 }, Label { id: 18 });
    let fp = TEMP(Temp { id: FRAME_POINTER });
    let flush = EXP(b(CALL(b(NAME(Label { id: 1 })), vec![fp])));
    let expected = seqs(vec![
        CJUMP(RelOp::GE, CONST(0), CONST(1), t, x),
        LABEL(t),
        JUMP(NAME(Label { id: 5 }), vec![Label { id: 5 }]),
        JUMP(NAME(j), vec![j]),
        LABEL(x),
        flush,
        LABEL(j),
    ]);
    assert_eq!(code, expected);
    assert_eq!(level.next_label, 19);
}

#[test]
fn if_branch_errors_come_out() {
    let exp = if_exp(Exp::Int(1), Exp::Break, None);
    let res = ifexp::trans_stm(&exp, Level::outermost(), &initial_value_env(), &vec![], vec![]);
    assert!(matches!(res, Err(TransError::BreakError(_))));
}

#[test]
fn if_without_else_has_no_value() {
    let exp = if_exp(Exp::Int(1), Exp::Int(2), None);
    let res = trans_exp(&exp, Level::outermost(), &initial_value_env(), &vec![], vec![]);
    assert!(matches!(res, Err(TransError::Unsupported(_))));
}

#[test]
fn nested_conditionals_use_distinct_labels() {
    let inner = if_exp(Exp::Int(1), Exp::Int(2), Some(Exp::Int(3)));
    let exp = make_ast(Exp::If { test: b(inner), then_: boxed_ast(Exp::Int(4)), else_: Some(boxed_ast(Exp::Int(5))) });
    let (_, level, _) = trans_exp(&exp, Level::outermost(), &initial_value_env(), &vec![], vec![]).expect("should translate");
    assert_eq!(level.next_label, 22);
    assert_eq!(level.next_temp, 3);
}

#[test]
fn call_passes_the_static_link_first() {
    let exp = make_ast(call("print", vec![Exp::String(String::from("hi"))]));
    let (code, level, frags) =
        callexp::trans_exp(&exp, Level::outermost(), &initial_value_env(), &vec![], vec![]).expect("should translate");
    let expected = CALL(b(NAME(Label { id: 0 })), vec![TEMP(Temp { id: FRAME_POINTER }), NAME(Label { id: 16 })]);
    assert_eq!(code, expected);
    assert_eq!(level.next_label, 17);
    assert_eq!(frags, vec![Fragment::ConstString(Label { id: 16 }, String::from("hi"))]);
}

#[test]
fn call_in_a_nested_function_follows_the_links() {
    let exp = make_ast(call("flush", vec![]));
    let level = Level { nesting_depth: 2, next_label: 30, next_temp: 4 };
    let (code, out, _) = callexp::trans_exp(&exp, level, &initial_value_env(), &vec![], vec![]).expect("should translate");
    let link = MEM(b(MEM(b(TEMP(Temp { id: FRAME_POINTER })))));
    assert_eq!(code, CALL(b(NAME(Label { id: 1 })), vec![link]));
    assert_eq!(out, level);
}

#[test]
fn call_as_statement_drops_the_value() {
    let exp = make_ast(call("flush", vec![]));
    let (code, _, _) = callexp::trans_stm(&exp, Level::outermost(), &initial_value_env(), &vec![], vec![]).expect("should translate");
    let fp = TEMP(Temp { id: FRAME_POINTER });
    assert_eq!(code, EXP(b(CALL(b(NAME(Label { id: 1 })), vec![fp]))));
    let (code2, _, _) = trans_stm(&exp, Level::outermost(), &initial_value_env(), &vec![], vec![]).expect("should translate");
    assert_eq!(code2, code);
}

#[test]
fn arguments_are_translated_left_to_right() {
    let args = vec![make_ast(Exp::String(String::from("a"))), make_ast(Exp::Int(7)), make_ast(Exp::String(String::from("b")))];
    let (exps, level, frags) =
        translate_many_exp(&args, Level::outermost(), &initial_value_env(), &vec![], vec![]).expect("should translate");
    assert_eq!(exps, vec![NAME(Label { id: 16 }), CONST(7), NAME(Label { id: 17 })]);
    assert_eq!(level.next_label, 18);
    assert_eq!(
        frags,
        vec![Fragment::ConstString(Label { id: 16 }, String::from("a")), Fragment::ConstString(Label { id: 17 }, String::from("b"))]
    );
}

#[test]
fn argument_errors_come_out() {
    let args = vec![make_ast(Exp::Int(7)), make_ast(Exp::Break)];
    let res = translate_many_exp(&args, Level::outermost(), &initial_value_env(), &vec![], vec![]);
    assert!(matches!(res, Err(TransError::Unsupported(_))));
}

#[test]
fn static_links() {
    assert_eq!(generate_static_link(0), TEMP(Temp { id: FRAME_POINTER }));
    assert_eq!(generate_static_link(-3), TEMP(Temp { id: FRAME_POINTER }));
    let fp = TEMP(Temp { id: FRAME_POINTER });
    assert_eq!(generate_static_link(3), MEM(b(MEM(b(MEM(b(fp)))))));
}

#[test]
fn seq_nests_to_the_right() {
    assert_eq!(tree::seq(vec![]), EXP(b(CONST(0))));
    assert_eq!(tree::seq(vec![LABEL(Label { id: 1 })]), LABEL(Label { id: 1 }));
    let inner = SEQ(b(LABEL(Label { id: 2 })), b(LABEL(Label { id: 3 })));
    assert_eq!(
        tree::seq(vec![LABEL(Label { id: 1 }), LABEL(Label { id: 2 }), LABEL(Label { id: 3 })]),
        SEQ(b(LABEL(Label { id: 1 })), b(inner))
    );
}

#[test]
fn labels_and_temps_count_up() {
    let mut level = Level::outermost();
    assert_eq!(newlabel(&mut level), Label { id: 16 });
    assert_eq!(newlabel(&mut level), Label { id: 17 });
    assert_eq!(newtemp(&mut level), Temp { id: 1 });
    assert_eq!(newtemp(&mut level), Temp { id: 2 });
    assert_eq!(level, Level { nesting_depth: 0, next_label: 18, next_temp: 3 });
}

#[test]
fn integer_translates_to_constant() {
    let (code, level, frags) =
        trans_exp(&make_ast(Exp::Int(42)), Level::outermost(), &initial_value_env(), &vec![], vec![]).expect("should translate");
    assert_eq!(code, CONST(42));
    assert_eq!(level, Level::outermost());
    assert!(frags.is_empty());
}

#[test]
fn unsupported_statements() {
    let res = trans_stm(&make_ast(Exp::Int(1)), Level::outermost(), &initial_value_env(), &vec![], vec![]);
    assert!(matches!(res, Err(TransError::Unsupported(_))));
}

fn labels_of_exp(e: &tree::Exp, out: &mut Vec<Label>) {
    match e {
        MEM(x) => labels_of_exp(x, out),
        CALL(f, args) => {
            labels_of_exp(f, out);
            for a in args {
                labels_of_exp(a, out);
            }
        }
        ESEQ(s, x) => {
            labels_of_stm(s, out);
            labels_of_exp(x, out);
        }
        _ => {}
    }
}

fn labels_of_stm(s: &Stm, out: &mut Vec<Label>) {
    match s {
        MOVE(a, c) => {
            labels_of_exp(a, out);
            labels_of_exp(c, out);
        }
        EXP(x) => labels_of_exp(x, out),
        JUMP(x, _) => labels_of_exp(x, out),
        CJUMP(_, a, c, _, _) => {
            labels_of_exp(a, out);
            labels_of_exp(c, out);
        }
        SEQ(a, c) => {
            labels_of_stm(a, out);
            labels_of_stm(c, out);
        }
        LABEL(l) => out.push(*l),
    }
}

#[test]
fn translated_code_defines_fresh_labels_once() {
    let inner = if_exp(Exp::Int(1), Exp::Int(2), Some(Exp::Int(3)));
    let args = vec![inner, make_ast(Exp::String(String::from("s")))];
    let call_exp = make_ast(Exp::Call { func: Symbol::from("concat"), args });
    let exp = make_ast(Exp::If {
        test: boxed_ast(Exp::Int(0)),
        then_: b(call_exp),
        else_: Some(boxed_ast(Exp::String(String::from("t")))),
    });
    let level = Level { nesting_depth: 1, next_label: 100, next_temp: 50 };
    let (code, out, frags) = trans_exp(&exp, level, &initial_value_env(), &vec![], vec![]).expect("should translate");
    let mut labels = Vec::new();
    labels_of_exp(&code, &mut labels);
    assert_eq!(labels.len(), 6);
    for (i, l) in labels.iter().enumerate() {
        assert!(l.id >= level.next_label && l.id < out.next_label);
        for m in &labels[i + 1..] {
            assert_ne!(l, m);
        }
    }
    assert_eq!(out.nesting_depth, 1);
    assert_eq!(frags.len(), 2);
}

#[test]
fn if_under_a_loop_label_from_the_same_level_defines_other_labels() {
    let mut level = Level::outermost();
    let loop_end = newlabel(&mut level);
    let exp = if_exp(Exp::Int(1), Exp::Break, None);
    let (code, out, _) = ifexp::trans_stm(&exp, level, &initial_value_env(), &vec![Some(loop_end)], vec![])
        .expect("should translate");
    let (t, j) = (Label { id: 17 }, Label { id: 18 });
    let expected = seqs(vec![
        CJUMP(RelOp::GE, CONST(1), CONST(1), t, j),
        LABEL(t),
        JUMP(NAME(loop_end), vec![loop_end]),
        LABEL(j),
    ]);
    assert_eq!(code, expected);
    assert_ne!(t, loop_end);
    assert_ne!(j, loop_end);
    assert_eq!(out.next_label, 19);
}

#[test]
fn if_value_temp_is_not_the_frame_pointer_its_branch_reads() {
    let exp = if_exp(Exp::Int(1), call("flush", vec![]), Some(Exp::Int(0)));
    let (code, level, _) =
        ifexp::trans_exp(&exp, Level::outermost(), &initial_value_env(), &vec![], vec![]).expect("should translate");
    let (t, j, x, r) = (Label { id: 16 }, Label { id: 17 }, Label { id: 18 }, Temp { id: 1 });
    let fp = TEMP(Temp { id: FRAME_POINTER });
    let body = seqs(vec![
        CJUMP(RelOp::GE, CONST(1), CONST(1), t, x),
        LABEL(t),
        MOVE(b(TEMP(r)), b(CALL(b(NAME(Label { id: 1 })), vec![fp]))),
        JUMP(NAME(j), vec![j]),
        LABEL(x),
        MOVE(b(TEMP(r)), b(CONST(0))),
        LABEL(j),
    ]);
    assert_eq!(code, ESEQ(b(body), b(TEMP(r))));
    assert_ne!(r.id, FRAME_POINTER);
    assert_eq!(level.next_temp, 2);
}

#[test]
fn nested_if_values_hold_their_values_in_different_temps() {
    let inner = Exp::If {
        test: boxed_ast(Exp::Int(0)),
        then_: boxed_ast(Exp::Int(5)),
        else_: Some(boxed_ast(Exp::Int(6))),
    };
    let exp = if_exp(Exp::Int(1), inner, Some(Exp::Int(7)));
    let (code, level, _) =
        ifexp::trans_exp(&exp, Level::outermost(), &initial_value_env(), &vec![], vec![]).expect("should translate");
    let (inner_r, outer_r) = (Temp { id: 1 }, Temp { id: 2 });
    let (body, result) = match code {
        ESEQ(body, result) => (body, result),
        other => panic!("wrong translation: {:?}", other),
    };
    assert_eq!(*result, TEMP(outer_r));
    // The then-branch moves the inner conditional's value into the outer temp.
    let then_move = match *body {
        SEQ(_, rest) => match *rest {
            SEQ(_, rest) => match *rest {
                SEQ(first, _) => first,
                other => panic!("wrong translation: {:?}", other),
            },
            other => panic!("wrong translation: {:?}", other),
        },
        other => panic!("wrong translation: {:?}", other),
    };
    match *then_move {
        MOVE(dst, src) => {
            assert_eq!(*dst, TEMP(outer_r));
            match *src {
                ESEQ(_, inner_result) => assert_eq!(*inner_result, TEMP(inner_r)),
                other => panic!("wrong translation: {:?}", other),
            }
        }
        other => panic!("wrong translation: {:?}", other),
    }
    assert_eq!(level.next_temp, 3);
}
