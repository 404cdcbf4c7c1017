use hector::ast::{Exp, Pos, AST};
use hector::seman::stringexp::{tipar, traducir};
use hector::tree::translate::stringexp::trans_exp;
use hector::tree::{self, Fragment, Label, Level, FIRST_FRESH_LABEL};
use hector::typecheck::{initial_type_env, initial_value_env};
use hector::types::TigerType;

fn lorem() -> AST {
    AST {
        node: Exp::String(String::from("lorem ipsum")),
        pos: Pos { line: 0, column: 0 },
        typ: Box::new(TigerType::TString),
    }
}

#[test]
fn stringexp_ok() {
    let exp = lorem();
    let level = Level::outermost();
    let value_env = initial_value_env();
    let res = trans_exp(&exp, level, &value_env, &vec![], vec![]);
    match res {
        Ok((tree::Exp::NAME(_), _level, fragments)) => {
            assert!(!fragments.is_empty());
        }
        Ok(..) => panic!("wrong result"),
        Err(..) => panic!("should translate"),
    }
}

#[test]
fn string_fragment_holds_the_text_under_the_new_label() {
    let exp = lorem();
    let level = Level::outermost();
    let earlier = vec![Fragment::ConstString(Label { id: 3 }, String::from("x"))];
    let res = trans_exp(&exp, level, &initial_value_env(), &vec![], earlier);
    match res {
        Ok((tree::Exp::NAME(l), out, fragments)) => {
            assert_eq!(l, Label { id: FIRST_FRESH_LABEL });
            assert_eq!(out.next_label, FIRST_FRESH_LABEL + 1);
            assert_eq!(out.next_temp, level.next_temp);
            assert_eq!(fragments.len(), 2);
            match &fragments[0] {
                Fragment::ConstString(l0, s0) => {
                    assert_eq!(*l0, Label { id: 3 });
                    assert_eq!(s0, "x");
                }
            }
            match &fragments[1] {
                Fragment::ConstString(l1, s1) => {
                    assert_eq!(*l1, l);
                    assert_eq!(s1, "lorem ipsum");
                }
            }
        }
        _ => panic!("should translate"),
    }
}

#[test]
fn string_literal_has_type_string() {
    let res = tipar(lorem(), initial_type_env(), initial_value_env());
    assert_eq!(res, Ok(TigerType::TString));
}

#[test]
fn traducir_is_constant_zero() {
    match traducir(lorem()) {
        tree::Exp::CONST(0) => (),
        other => panic!("wrong translation: {:?}", other),
    }
}

#[test]
fn equal_literals_get_their_own_labels_and_fragments() {
    let level = Level::outermost();
    let venv = initial_value_env();
    let (first, level1, frags1) = trans_exp(&lorem(), level, &venv, &vec![], vec![]).expect("should translate");
    assert_eq!(frags1.len(), 1);
    let (second, level2, frags2) = trans_exp(&lorem(), level1, &venv, &vec![], frags1).expect("should translate");
    let (l1, l2) = match (first, second) {
        (tree::Exp::NAME(l1), tree::Exp::NAME(l2)) => (l1, l2),
        _ => panic!("wrong translation"),
    };
    assert_ne!(l1, l2);
    assert_eq!(level2.next_label, level.next_label + 2);
    assert_eq!(
        frags2,
        vec![
            Fragment::ConstString(l1, String::from("lorem ipsum")),
            Fragment::ConstString(l2, String::from("lorem ipsum")),
        ]
    );
}
