use hector::ast::{boxed_ast, make_ast, make_var, Exp, Symbol, VarKind};
use hector::typecheck::assignexp::typecheck;
use hector::typecheck::{initial_type_env, initial_value_env, type_exp, type_of, EnvEntry, TypeError, ValueEnviroment};
use hector::types::{TigerType, R};

fn assign(var: &str, value: Exp) -> hector::ast::AST {
    make_ast(Exp::Assign { var: make_var(VarKind::Simple(Symbol::from(var))), exp: boxed_ast(value) })
}

fn value_env() -> ValueEnviroment {
    let mut env = initial_value_env();
    env.insert(Symbol::from("foo"), EnvEntry::Var { ty: TigerType::TInt(R::RW) });
    env.insert(Symbol::from("i"), EnvEntry::Var { ty: TigerType::TInt(R::RO) });
    env
}

#[test]
fn assignment_has_no_value() {
    let exp = assign("foo", Exp::Int(3));
    assert_eq!(typecheck(&exp, &initial_type_env(), &value_env()), Ok(TigerType::TUnit));
}

#[test]
fn assignment_to_read_only_variable() {
    let exp = assign("i", Exp::Int(3));
    assert!(matches!(typecheck(&exp, &initial_type_env(), &value_env()), Err(TypeError::ReadOnlyAssignment(_))));
}

#[test]
fn assignment_of_the_wrong_type() {
    let exp = assign("foo", Exp::String(String::from("three")));
    assert!(matches!(typecheck(&exp, &initial_type_env(), &value_env()), Err(TypeError::TypeMismatch(_))));
}

#[test]
fn assignment_to_undeclared_variable() {
    let exp = assign("bar", Exp::Int(3));
    assert!(matches!(typecheck(&exp, &initial_type_env(), &value_env()), Err(TypeError::UndeclaredSimpleVar(_))));
}

#[test]
fn assignment_to_a_function() {
    let exp = assign("print", Exp::Int(3));
    assert!(matches!(typecheck(&exp, &initial_type_env(), &value_env()), Err(TypeError::NotSimpleVar(_))));
}

#[test]
fn assignment_value_error_comes_out() {
    let exp = assign("foo", Exp::Var(make_var(VarKind::Simple(Symbol::from("bar")))));
    assert!(matches!(typecheck(&exp, &initial_type_env(), &value_env()), Err(TypeError::UndeclaredSimpleVar(_))));
}

#[test]
fn assignment_through_type_exp_is_annotated_with_unit() {
    let exp = assign("foo", Exp::Int(3));
    let typed = type_exp(exp, &initial_type_env(), &value_env()).expect("should check");
    assert_eq!(*typed.typ, TigerType::TUnit);
    assert!(matches!(typed.node, Exp::Assign { .. }));
}

#[test]
fn checking_a_break_is_not_supported() {
    let exp = make_ast(Exp::Break);
    assert!(matches!(type_of(&exp, &initial_type_env(), &value_env()), Err(TypeError::Unsupported(_))));
}

#[test]
fn literals_have_their_types() {
    assert_eq!(type_of(&make_ast(Exp::Int(4)), &initial_type_env(), &value_env()), Ok(TigerType::TInt(R::RW)));
    assert_eq!(type_of(&make_ast(Exp::String(String::from("s"))), &initial_type_env(), &value_env()), Ok(TigerType::TString));
}
