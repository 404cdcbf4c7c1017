//! Checking and translating string literals, in the first form of the checker.
use vstd::prelude::*;
use crate::ast::AST;
use crate::tree;
use crate::types::{SpecType, TigerType};
use crate::typecheck::{TypeEnviroment, TypeError, ValueEnviroment};

verus! {

/// A string literal has type `string`.
pub fn tipar(_exp: AST, type_env: TypeEnviroment, value_env: ValueEnviroment) -> (r: Result<TigerType, TypeError>)
    ensures
        r matches Ok(t) && t@ == SpecType::Str,
{
    Ok(TigerType::TString)
}

/// Translation of string literals in the first form: the constant 0.
pub fn traducir(exp: AST) -> (r: tree::Exp)
    ensures
        r@ == tree::SpecExp::Const(0),
{
    tree::Exp::CONST(0)
}

} // verus!
