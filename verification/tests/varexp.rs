use hector::ast::{boxed_ast, make_ast, make_var, Exp, Pos, Symbol, Var, VarKind, AST};
use hector::tree::Label;
use hector::typecheck::varexp::typecheck_var;
use hector::typecheck::{initial_type_env, initial_value_env, type_exp, EnvEntry, TypeError};
use hector::types::{RecordFieldType, TigerType, TypeId, R};

pub fn boxed_var(kind: VarKind) -> Box<Var> {
    Box::new(Var { kind, pos: Pos { line: 0, column: 0 }, typ: Box::new(TigerType::Untyped) })
}

fn record_foo_type() -> TigerType {
    TigerType::TRecord(
        vec![(String::from("bar"), RecordFieldType::Type(Box::new(TigerType::TInt(R::RW))), 0)],
        TypeId::new(0),
    )
}

fn array_foo_type() -> TigerType {
    TigerType::TArray(Box::new(TigerType::TInt(R::RW)), TypeId::new(0))
}

#[test]
fn varexp_simplevar_ok() {
    let ast = make_ast(Exp::Var(make_var(VarKind::Simple(Symbol::from("foo")))));
    let type_env = initial_type_env();
    let mut value_env = initial_value_env();
    value_env.insert(Symbol::from("foo"), EnvEntry::Var { ty: TigerType::TInt(R::RW) });
    let res = type_exp(ast, &type_env, &value_env);
    match res {
        Ok(AST { typ, .. }) if *typ == TigerType::TInt(R::RW) => (),
        Ok(AST { typ, .. }) => panic!("wrong type: {:?}", typ),
        Err(type_error) => panic!("type error: {:?}", type_error),
    }
}

#[test]
fn varexp_simplevar_not_declared() {
    let ast = make_ast(Exp::Var(make_var(VarKind::Simple(Symbol::from("foo")))));
    let type_env = initial_type_env();
    let value_env = initial_value_env();
    let res = type_exp(ast, &type_env, &value_env);
    match res {
        Err(TypeError::UndeclaredSimpleVar(_)) => (),
        Err(type_error) => panic!("Wrong type error: {:?}", type_error),
        Ok(ast) => panic!("Should error, returns: {:?}", ast),
    }
}

#[test]
fn varexp_simplevar_not_simple() {
    let ast = make_ast(Exp::Var(make_var(VarKind::Simple(Symbol::from("f")))));
    let type_env = initial_type_env();
    let mut value_env = initial_value_env();
    value_env.insert(
        Symbol::from("f"),
        EnvEntry::Func { label: Label { id: 100 }, formals: vec![], result: TigerType::TUnit, external: false },
    );
    let res = type_exp(ast, &type_env, &value_env);
    match res {
        Err(TypeError::NotSimpleVar(_)) => (),
        Err(type_error) => panic!("Wrong type error: {:?}", type_error),
        Ok(tiger_type) => panic!("Should error, returns: {:?}", tiger_type),
    }
}

#[test]
fn varexp_fieldvar_ok() {
    let ast = make_ast(Exp::Var(make_var(VarKind::Field(
        boxed_var(VarKind::Simple(Symbol::from("foo"))),
        Symbol::from("bar"),
    ))));
    let mut type_env = initial_type_env();
    let mut value_env = initial_value_env();
    type_env.insert(Symbol::from("FooType"), record_foo_type());
    value_env.insert(Symbol::from("foo"), EnvEntry::Var { ty: record_foo_type() });
    let res = type_exp(ast, &type_env, &value_env);
    match res {
        Ok(AST { typ, .. }) if *typ == TigerType::TInt(R::RW) => (),
        Ok(AST { typ, .. }) => panic!("wrong type: {:?}", typ),
        Err(type_error) => panic!("type error: {:?}", type_error),
    }
}

#[test]
fn varexp_fieldvar_field_does_not_exist() {
    let ast = make_ast(Exp::Var(make_var(VarKind::Field(
        boxed_var(VarKind::Simple(Symbol::from("foo"))),
        Symbol::from("perro"),
    ))));
    let mut type_env = initial_type_env();
    let mut value_env = initial_value_env();
    type_env.insert(Symbol::from("FooType"), record_foo_type());
    value_env.insert(Symbol::from("foo"), EnvEntry::Var { ty: record_foo_type() });
    let res = type_exp(ast, &type_env, &value_env);
    match res {
        Err(TypeError::UndeclaredField(_)) => (),
        Err(type_error) => panic!("Wrong type error: {:?}", type_error),
        Ok(tiger_type) => panic!("Should error, returns: {:?}", tiger_type),
    }
}

#[test]
fn varexp_fieldvar_not_record() {
    let ast = make_ast(Exp::Var(make_var(VarKind::Field(
        boxed_var(VarKind::Simple(Symbol::from("foo"))),
        Symbol::from("bar"),
    ))));
    let mut type_env = initial_type_env();
    let mut value_env = initial_value_env();
    type_env.insert(Symbol::from("FooType"), TigerType::TInt(R::RW));
    value_env.insert(Symbol::from("foo"), EnvEntry::Var { ty: TigerType::TInt(R::RW) });
    let res = type_exp(ast, &type_env, &value_env);
    match res {
        Err(TypeError::NotRecordType(_)) => (),
        Err(type_error) => panic!("Wrong type error: {:?}", type_error),
        Ok(tiger_type) => panic!("Should error, returns: {:?}", tiger_type),
    }
}

#[test]
fn varexp_subscriptvar_ok() {
    let ast = make_ast(Exp::Var(make_var(VarKind::Subscript(
        boxed_var(VarKind::Simple(Symbol::from("foo"))),
        boxed_ast(Exp::Int(0)),
    ))));
    let mut type_env = initial_type_env();
    let mut value_env = initial_value_env();
    type_env.insert(Symbol::from("FooType"), array_foo_type());
    value_env.insert(Symbol::from("foo"), EnvEntry::Var { ty: array_foo_type() });
    let res = type_exp(ast, &type_env, &value_env);
    match res {
        Ok(AST { typ, .. }) if *typ == TigerType::TInt(R::RW) => (),
        Ok(AST { typ, .. }) => panic!("wrong type: {:?}", typ),
        Err(type_error) => panic!("type error: {:?}", type_error),
    }
}

#[test]
fn varexp_subscriptvar_non_integer_index() {
    let ast = make_ast(Exp::Var(make_var(VarKind::Subscript(
        boxed_var(VarKind::Simple(Symbol::from("foo"))),
        boxed_ast(Exp::String(String::from("una string de indice :o"))),
    ))));
    let mut type_env = initial_type_env();
    let mut value_env = initial_value_env();
    type_env.insert(Symbol::from("FooType"), array_foo_type());
    value_env.insert(Symbol::from("foo"), EnvEntry::Var { ty: array_foo_type() });
    let res = type_exp(ast, &type_env, &value_env);
    match res {
        Err(TypeError::NonIntegerSubscript(_)) => (),
        Err(type_error) => panic!("Wrong type error: {:?}", type_error),
        Ok(tiger_type) => panic!("Should error, returns: {:?}", tiger_type),
    }
}

#[test]
fn varexp_subscriptvar_not_array() {
    let ast = make_ast(Exp::Var(make_var(VarKind::Subscript(
        boxed_var(VarKind::Simple(Symbol::from("foo"))),
        boxed_ast(Exp::Int(0)),
    ))));
    let mut type_env = initial_type_env();
    let mut value_env = initial_value_env();
    type_env.insert(Symbol::from("FooType"), TigerType::TInt(R::RW));
    value_env.insert(Symbol::from("foo"), EnvEntry::Var { ty: TigerType::TInt(R::RW) });
    let res = type_exp(ast, &type_env, &value_env);
    match res {
        Err(TypeError::NotArrayType(_)) => (),
        Err(type_error) => panic!("Wrong type error: {:?}", type_error),
        Ok(tiger_type) => panic!("Should error, returns: {:?}", tiger_type),
    }
}

#[test]
fn typecheck_var_rebuilds_the_variable_with_types() {
    let var = make_var(VarKind::Subscript(
        boxed_var(VarKind::Simple(Symbol::from("foo"))),
        boxed_ast(Exp::Int(7)),
    ));
    let type_env = initial_type_env();
    let mut value_env = initial_value_env();
    value_env.insert(Symbol::from("foo"), EnvEntry::Var { ty: array_foo_type() });
    let typed = typecheck_var(var, &type_env, &value_env).expect("should check");
    assert_eq!(*typed.typ, TigerType::TInt(R::RW));
    match typed.kind {
        VarKind::Subscript(inner, index) => {
            assert_eq!(*inner.typ, array_foo_type());
            assert_eq!(*index.typ, TigerType::TInt(R::RW));
            assert!(matches!(index.node, Exp::Int(7)));
        }
        _ => panic!("kind should be kept"),
    }
}

#[test]
fn field_given_by_record_id_takes_the_record_type_from_the_environment() {
    // type list = { head: int, tail: list }
    let list_type = || {
        TigerType::TRecord(
            vec![
                (String::from("head"), RecordFieldType::Type(Box::new(TigerType::TInt(R::RW))), 0),
                (String::from("tail"), RecordFieldType::Record(TypeId::new(9)), 1),
            ],
            TypeId::new(9),
        )
    };
    let mut type_env = initial_type_env();
    type_env.insert(Symbol::from("list"), list_type());
    let mut value_env = initial_value_env();
    value_env.insert(Symbol::from("l"), EnvEntry::Var { ty: list_type() });
    let ast = make_ast(Exp::Var(make_var(VarKind::Field(
        boxed_var(VarKind::Simple(Symbol::from("l"))),
        Symbol::from("tail"),
    ))));
    let res = type_exp(ast, &type_env, &value_env).expect("should check");
    assert_eq!(*res.typ, list_type());

    // Without the record type in the environment, the field has no type.
    let ast = make_ast(Exp::Var(make_var(VarKind::Field(
        boxed_var(VarKind::Simple(Symbol::from("l"))),
        Symbol::from("tail"),
    ))));
    let res = type_exp(ast, &initial_type_env(), &value_env);
    assert!(matches!(res, Err(TypeError::UndeclaredField(_))));
}

#[test]
fn read_only_int_variable_reads_as_read_only() {
    let ast = make_ast(Exp::Var(make_var(VarKind::Simple(Symbol::from("i")))));
    let mut value_env = initial_value_env();
    value_env.insert(Symbol::from("i"), EnvEntry::Var { ty: TigerType::TInt(R::RO) });
    let res = type_exp(ast, &initial_type_env(), &value_env).expect("should check");
    assert_eq!(*res.typ, TigerType::TInt(R::RO));
}
