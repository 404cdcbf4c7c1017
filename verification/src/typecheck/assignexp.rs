//! Checking assignments.
use vstd::prelude::*;
use crate::ast::{AST, Exp};
use crate::types::{R, TigerType, types_equal};
use super::{TypeEnviroment, TypeError, ValueEnviroment, exp_type, type_of, type_result};
use super::varexp::type_of_var;

verus! {

/// Checks `var := exp`: the variable must be writable and of the value's type;
/// the assignment itself has no value.
pub fn typecheck(exp: &AST, type_env: &TypeEnviroment, value_env: &ValueEnviroment) -> (r: Result<TigerType, TypeError>)
    requires
        exp.node is Assign,
    ensures
        type_result(r) == exp_type(*exp, *type_env, *value_env),
    decreases *exp, 0nat,
{
    match &exp.node {
        Exp::Assign { var, exp: value_exp } => {
            let var_type = match type_of_var(var, type_env, value_env) {
                Ok(TigerType::TInt(R::RO)) => return Err(TypeError::ReadOnlyAssignment(exp.pos)),
                Ok(tipo) => tipo,
                Err(type_error) => return Err(type_error),
            };
            let value_type = match type_of(value_exp, type_env, value_env) {
                Ok(tipo) => tipo,
                Err(type_error) => return Err(type_error),
            };
            if types_equal(&var_type, &value_type) {
                Ok(TigerType::TUnit)
            } else {
                Err(TypeError::TypeMismatch(exp.pos))
            }
        },
        _ => {
            assert(false);
            Err(TypeError::Unsupported(exp.pos))
        },
    }
}

} // verus!
