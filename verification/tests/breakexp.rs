use hector::ast::{Exp, Pos, AST};
use hector::tree::translate::breakexp::trans_stm;
use hector::tree::translate::TransError;
use hector::tree::{self, newlabel, Label, Level, Stm};
use hector::typecheck::initial_value_env;
use hector::types::TigerType;

fn break_exp() -> AST {
    AST {
        node: Exp::Break,
        pos: Pos { line: 0, column: 0 },
        typ: Box::new(TigerType::Untyped),
    }
}

#[test]
fn no_labels_error() {
    let exp = break_exp();
    let level = Level::outermost();
    let res = trans_stm(&exp, level, &initial_value_env(), &vec![], vec![]);
    match res {
        Err(TransError::BreakError(_)) => (),
        Err(..) => panic!("wrong error"),
        Ok(..) => panic!("shouldn't translate"),
    }
}

#[test]
fn none_label_error() {
    let exp = break_exp();
    let level = Level::outermost();
    let res = trans_stm(&exp, level, &initial_value_env(), &vec![], vec![]);
    match res {
        Err(TransError::BreakError(_)) => (),
        Err(..) => panic!("wrong error"),
        Ok(..) => panic!("shouldn't translate"),
    }
}

#[test]
fn breakexp_ok() {
    let exp = break_exp();
    let mut level = Level::outermost();
    let loop_end = newlabel(&mut level);
    let res = trans_stm(&exp, level, &initial_value_env(), &vec![Some(loop_end)], vec![]);
    match res {
        Ok((Stm::JUMP(tree::Exp::NAME(_), _), _, fragments)) => {
            assert!(fragments.is_empty());
        }
        Ok(..) => panic!("wrong translation"),
        Err(..) => panic!("should translate"),
    }
}

#[test]
fn break_on_none_top_of_stack_is_an_error() {
    let exp = break_exp();
    let res = trans_stm(&exp, Level::outermost(), &initial_value_env(), &vec![Some(Label { id: 40 }), None], vec![]);
    match res {
        Err(TransError::BreakError(pos)) => assert_eq!(pos, Pos { line: 0, column: 0 }),
        _ => panic!("a break inside a non-loop scope should fail"),
    }
}

#[test]
fn break_jumps_to_innermost_loop_label() {
    let exp = break_exp();
    let level = Level::outermost();
    let res = trans_stm(&exp, level, &initial_value_env(), &vec![Some(Label { id: 40 }), Some(Label { id: 41 })], vec![]);
    match res {
        Ok((Stm::JUMP(tree::Exp::NAME(l), targets), out_level, fragments)) => {
            assert_eq!(l, Label { id: 41 });
            assert_eq!(targets, vec![Label { id: 41 }]);
            assert_eq!(out_level, level);
            assert!(fragments.is_empty());
        }
        _ => panic!("should jump to the innermost label"),
    }
}
