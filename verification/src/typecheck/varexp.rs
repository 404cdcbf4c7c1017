//! Checking variables: simple, subscripted and field variables.
use vstd::prelude::*;
use crate::ast::{AST, Exp, Var, VarKind};
use crate::types::{R, RecordFieldType, SpecType, TigerType, TypeId, clone_type, field_view, fields_view, lemma_fields_view};
use super::{
    EnvEntry, TypeEnviroment, TypeError, ValueEnviroment, exp_annotated, exp_type, find_field,
    record_with_id, type_exp, type_of, type_result, var_annotated, var_type,
};

verus! {

pub open spec fn type_option(r: Option<TigerType>) -> Option<SpecType> {
    match r {
        Some(t) => Some(t@),
        None => None,
    }
}

/// The first record type with id `id` in the type environment.
fn record_type_with_id(type_env: &TypeEnviroment, id: TypeId) -> (r: Option<TigerType>)
    ensures
        type_option(r) == record_with_id(type_env.entries(), id),
{
    let bindings = type_env.bindings();
    let n = bindings.len();
    assert(bindings@.subrange(0, n as int) =~= bindings@);
    for i in 0..n
        invariant
            n == bindings@.len(),
            bindings@ == type_env.entries(),
            record_with_id(bindings@, id) == record_with_id(bindings@.subrange(i as int, n as int), id),
    {
        let ghost rest = bindings@.subrange(i as int, n as int);
        assert(rest[0] == bindings@[i as int]);
        assert(rest.drop_first() =~= bindings@.subrange(i + 1, n as int));
        if let TigerType::TRecord(_, table_type_id) = &bindings[i].1 {
            if *table_type_id == id {
                return Some(clone_type(&bindings[i].1));
            }
        }
    }
    assert(bindings@.subrange(n as int, n as int) =~= Seq::<(String, TigerType)>::empty());
    None
}

/// The type of the first field named `symbol`; a field given as a record id
/// has the first record type with that id in the type environment.
fn find_field_type(fields: &[(String, RecordFieldType, i32)], symbol: &String, type_env: &TypeEnviroment) -> (r: Option<TigerType>)
    ensures
        type_option(r) == find_field(fields_view(fields@), symbol@, *type_env),
{
    let ghost fv = fields_view(fields@);
    proof {
        lemma_fields_view(fields@);
    }
    let n = fields.len();
    assert(fv.subrange(0, n as int) =~= fv);
    for i in 0..n
        invariant
            n == fields@.len(),
            fv == fields_view(fields@),
            fv.len() == n,
            forall|j: int| 0 <= j < n ==> #[trigger] fv[j] == field_view(fields@[j]),
            find_field(fv, symbol@, *type_env) == find_field(fv.subrange(i as int, n as int), symbol@, *type_env),
    {
        let ghost rest = fv.subrange(i as int, n as int);
        assert(rest[0] == fv[i as int]);
        assert(rest.drop_first() =~= fv.subrange(i + 1, n as int));
        let field = &fields[i];
        if field.0 == *symbol {
            match &field.1 {
                RecordFieldType::Type(t) => return Some(clone_type(t)),
                RecordFieldType::Record(field_type_id) => return record_type_with_id(type_env, *field_type_id),
            }
        }
    }
    assert(fv.subrange(n as int, n as int) =~= Seq::<crate::types::SpecField>::empty());
    None
}

/// Rebuilds a variable with its type and the types of its parts filled in,
/// or returns the first error met.
pub fn typecheck_var(var: Var, type_env: &TypeEnviroment, value_env: &ValueEnviroment) -> (r: Result<Var, TypeError>)
    ensures
        r matches Ok(t) ==> var_annotated(t, var, *type_env, *value_env),
        r matches Err(err) ==> var_type(var, *type_env, *value_env) == Err::<SpecType, TypeError>(err),
    decreases var, 0nat,
{
    let ghost orig = var;
    let Var { kind, pos, typ: _ } = var;
    match kind {
        VarKind::Simple(var_symbol) => match value_env.get(&var_symbol) {
            // A simple var, as in `a := foo`.
            Some(EnvEntry::Var { ty }) => Ok(Var { kind: VarKind::Simple(var_symbol), typ: Box::new(clone_type(ty)), pos }),
            Some(_) => Err(TypeError::NotSimpleVar(pos)),
            None => Err(TypeError::UndeclaredSimpleVar(pos)),
        },
        VarKind::Subscript(subscript_var, index) => {
            // A subscript var, as in `a := foo[3]`.
            let typed_subscript_var = match typecheck_var(*subscript_var, type_env, value_env) {
                Ok(v) => v,
                Err(e) => return Err(e),
            };
            let array_of = if let TigerType::TArray(array_of, _) = &*typed_subscript_var.typ {
                clone_type(array_of)
            } else {
                return Err(TypeError::NotArrayType(pos));
            };
            let typed_index = match type_exp(*index, type_env, value_env) {
                Ok(t) => t,
                Err(e) => return Err(e),
            };
            if let TigerType::TInt(R::RW) = &*typed_index.typ {
            } else {
                return Err(TypeError::NonIntegerSubscript(pos));
            }
            Ok(Var { kind: VarKind::Subscript(Box::new(typed_subscript_var), Box::new(typed_index)), typ: Box::new(array_of), pos })
        },
        VarKind::Field(field_var, field_symbol) => {
            // A field var, as in `a := foo.bar`.
            let typed_field_var = match typecheck_var(*field_var, type_env, value_env) {
                Ok(v) => v,
                Err(e) => return Err(e),
            };
            let field_type = if let TigerType::TRecord(record_fields, _) = &*typed_field_var.typ {
                match find_field_type(record_fields.as_slice(), &field_symbol, type_env) {
                    Some(ty) => ty,
                    None => return Err(TypeError::UndeclaredField(pos)),
                }
            } else {
                return Err(TypeError::NotRecordType(pos));
            };
            Ok(Var { kind: VarKind::Field(Box::new(typed_field_var), field_symbol), typ: Box::new(field_type), pos })
        },
    }
}

/// The type of a variable, or the first error met in checking it.
pub fn type_of_var(var: &Var, type_env: &TypeEnviroment, value_env: &ValueEnviroment) -> (r: Result<TigerType, TypeError>)
    ensures
        type_result(r) == var_type(*var, *type_env, *value_env),
    decreases *var, 0nat,
{
    match &var.kind {
        VarKind::Simple(var_symbol) => match value_env.get(var_symbol) {
            Some(EnvEntry::Var { ty }) => Ok(clone_type(ty)),
            Some(_) => Err(TypeError::NotSimpleVar(var.pos)),
            None => Err(TypeError::UndeclaredSimpleVar(var.pos)),
        },
        VarKind::Subscript(subscript_var, index) => {
            let var_type = match type_of_var(subscript_var, type_env, value_env) {
                Ok(t) => t,
                Err(e) => return Err(e),
            };
            let array_of = if let TigerType::TArray(array_of, _) = &var_type {
                clone_type(array_of)
            } else {
                return Err(TypeError::NotArrayType(var.pos));
            };
            match type_of(index, type_env, value_env) {
                Ok(TigerType::TInt(R::RW)) => Ok(array_of),
                Ok(_) => Err(TypeError::NonIntegerSubscript(var.pos)),
                Err(e) => Err(e),
            }
        },
        VarKind::Field(field_var, field_symbol) => {
            let var_type = match type_of_var(field_var, type_env, value_env) {
                Ok(t) => t,
                Err(e) => return Err(e),
            };
            if let TigerType::TRecord(record_fields, _) = &var_type {
                match find_field_type(record_fields.as_slice(), field_symbol, type_env) {
                    Some(ty) => Ok(ty),
                    None => Err(TypeError::UndeclaredField(var.pos)),
                }
            } else {
                Err(TypeError::NotRecordType(var.pos))
            }
        },
    }
}

/// Rebuilds a variable expression with its type filled in, or returns the
/// first error met.
pub fn typecheck(ast: AST, type_env: &TypeEnviroment, value_env: &ValueEnviroment) -> (r: Result<AST, TypeError>)
    requires
        ast.node is Var,
    ensures
        r matches Ok(t) ==> exp_annotated(t, ast, *type_env, *value_env),
        r matches Err(err) ==> exp_type(ast, *type_env, *value_env) == Err::<SpecType, TypeError>(err),
    decreases ast, 0nat,
{
    let AST { node, pos, typ: _ } = ast;
    match node {
        Exp::Var(var) => {
            let typed_var = match typecheck_var(var, type_env, value_env) {
                Ok(v) => v,
                Err(e) => return Err(e),
            };
            let typ = clone_type(&typed_var.typ);
            Ok(AST { node: Exp::Var(typed_var), pos, typ: Box::new(typ) })
        },
        _ => {
            assert(false);
            Err(TypeError::Unsupported(pos))
        },
    }
}

} // verus!
