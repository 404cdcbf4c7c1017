use hector::ast::{boxed_ast, make_ast, make_var, Exp, Symbol, VarKind};
use hector::seman::recordexp::{translate, typecheck};
use hector::tree;
use hector::typecheck::{initial_type_env, initial_value_env, type_exp, EnvEntry, TypeError, TypeEnviroment};
use hector::types::{RecordFieldType, TigerType, TypeId, R};

fn point_type() -> TigerType {
    TigerType::TRecord(
        vec![
            (String::from("x"), RecordFieldType::Type(Box::new(TigerType::TInt(R::RW))), 0),
            (String::from("y"), RecordFieldType::Type(Box::new(TigerType::TInt(R::RW))), 1),
        ],
        TypeId::new(1),
    )
}

fn type_env() -> TypeEnviroment {
    let mut env = initial_type_env();
    env.insert(Symbol::from("Point"), point_type());
    env
}

fn record(name: &str, fields: Vec<(&str, Exp)>) -> hector::ast::AST {
    make_ast(Exp::Record {
        fields: fields.into_iter().map(|(n, e)| (Symbol::from(n), boxed_ast(e))).collect(),
        typ: Symbol::from(name),
    })
}

fn undeclared_var() -> Exp {
    Exp::Var(make_var(VarKind::Simple(Symbol::from("nowhere"))))
}

#[test]
fn record_with_all_fields_has_its_record_type() {
    let exp = record("Point", vec![("x", Exp::Int(1)), ("y", Exp::Int(2))]);
    assert_eq!(typecheck(&exp, &type_env(), &initial_value_env()), Ok(point_type()));
}

#[test]
fn record_fields_may_come_in_any_order() {
    let exp = record("Point", vec![("y", Exp::Int(2)), ("x", Exp::Int(1))]);
    assert_eq!(typecheck(&exp, &type_env(), &initial_value_env()), Ok(point_type()));
}

#[test]
fn record_of_undeclared_type() {
    let exp = record("Nope", vec![("x", Exp::Int(1)), ("y", Exp::Int(2))]);
    assert!(matches!(typecheck(&exp, &type_env(), &initial_value_env()), Err(TypeError::UndeclaredType(_))));
}

#[test]
fn record_of_undeclared_type_reports_that_before_field_errors() {
    let exp = record("Nope", vec![("x", undeclared_var())]);
    assert!(matches!(typecheck(&exp, &type_env(), &initial_value_env()), Err(TypeError::UndeclaredType(_))));
}

#[test]
fn record_of_a_type_that_is_not_a_record() {
    let exp = record("int", vec![("x", Exp::Int(1))]);
    assert!(matches!(typecheck(&exp, &type_env(), &initial_value_env()), Err(TypeError::NotRecordType(_))));
}

#[test]
fn record_missing_a_field() {
    let exp = record("Point", vec![("x", Exp::Int(1))]);
    assert!(matches!(typecheck(&exp, &type_env(), &initial_value_env()), Err(TypeError::MissingRecordField(_))));
}

#[test]
fn record_with_an_extra_field() {
    let exp = record("Point", vec![("x", Exp::Int(1)), ("y", Exp::Int(2)), ("z", Exp::Int(3))]);
    assert!(matches!(typecheck(&exp, &type_env(), &initial_value_env()), Err(TypeError::TooManyArguments(_))));
}

#[test]
fn record_with_an_extra_field_that_does_not_check() {
    let exp = record("Point", vec![("x", Exp::Int(1)), ("y", Exp::Int(2)), ("z", undeclared_var())]);
    assert!(matches!(typecheck(&exp, &type_env(), &initial_value_env()), Err(TypeError::TooManyArguments(_))));
}

#[test]
fn record_field_of_the_wrong_type() {
    let exp = record("Point", vec![("x", Exp::String(String::from("1"))), ("y", Exp::Int(2))]);
    assert!(matches!(typecheck(&exp, &type_env(), &initial_value_env()), Err(TypeError::TypeMismatch(_))));
}

#[test]
fn record_field_error_comes_out() {
    let exp = record("Point", vec![("x", Exp::Int(1)), ("y", undeclared_var())]);
    assert!(matches!(typecheck(&exp, &type_env(), &initial_value_env()), Err(TypeError::UndeclaredSimpleVar(_))));
}

#[test]
fn record_field_given_twice_counts_first() {
    let exp = record("Point", vec![("x", Exp::Int(1)), ("x", Exp::String(String::from("s"))), ("y", Exp::Int(2))]);
    assert_eq!(typecheck(&exp, &type_env(), &initial_value_env()), Ok(point_type()));
    let exp = record("Point", vec![("x", Exp::String(String::from("s"))), ("x", Exp::Int(1)), ("y", Exp::Int(2))]);
    assert!(matches!(typecheck(&exp, &type_env(), &initial_value_env()), Err(TypeError::TypeMismatch(_))));
}

#[test]
fn record_type_known_by_name_is_resolved() {
    let mut env = type_env();
    env.insert(Symbol::from("P"), TigerType::TipoInterno(String::from("Point")));
    let exp = record("P", vec![("x", Exp::Int(1)), ("y", Exp::Int(2))]);
    assert_eq!(typecheck(&exp, &env, &initial_value_env()), Ok(point_type()));
}

#[test]
fn record_field_given_by_record_id_accepts_a_record_of_that_id() {
    // type node = { next: node }
    let node_type = || {
        TigerType::TRecord(vec![(String::from("next"), RecordFieldType::Record(TypeId::new(5)), 0)], TypeId::new(5))
    };
    let mut env = initial_type_env();
    env.insert(Symbol::from("node"), node_type());
    let mut value_env = initial_value_env();
    value_env.insert(Symbol::from("n"), EnvEntry::Var { ty: node_type() });
    let exp = record("node", vec![("next", Exp::Var(make_var(VarKind::Simple(Symbol::from("n")))))]);
    assert_eq!(typecheck(&exp, &env, &value_env), Ok(node_type()));
    let exp = record("node", vec![("next", Exp::Int(0))]);
    assert!(matches!(typecheck(&exp, &env, &value_env), Err(TypeError::TypeMismatch(_))));
}

#[test]
fn record_through_type_exp_gets_its_type() {
    let exp = record("Point", vec![("x", Exp::Int(1)), ("y", Exp::Int(2))]);
    let typed = type_exp(exp, &type_env(), &initial_value_env()).expect("should check");
    assert_eq!(*typed.typ, point_type());
    assert!(matches!(typed.node, Exp::Record { .. }));
}

#[test]
fn record_translates_to_constant_zero() {
    let exp = record("Point", vec![("x", Exp::Int(1))]);
    assert_eq!(translate(exp), tree::Exp::CONST(0));
}
