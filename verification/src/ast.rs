//! The abstract syntax of Tiger expressions, each node with its position
//! and the type that the checker gave it.
use vstd::prelude::*;
use crate::types::TigerType;

verus! {

pub type Symbol = String;

/// A place in the source text.
#[derive(Clone, Copy, PartialEq, Eq, Structural, Debug)]
pub struct Pos {
    pub line: u32,
    pub column: u32,
}

/// An expression node, its position and its type (`Untyped` before checking).
#[derive(Debug)]
pub struct AST {
    pub node: Exp,
    pub pos: Pos,
    pub typ: Box<TigerType>,
}

#[derive(Debug)]
pub enum Exp {
    Var(Var),
    Int(i64),
    String(String),
    Call { func: Symbol, args: Vec<AST> },
    Record { fields: Vec<(Symbol, Box<AST>)>, typ: Symbol },
    Assign { var: Var, exp: Box<AST> },
    If { test: Box<AST>, then_: Box<AST>, else_: Option<Box<AST>> },
    Break,
}

/// A variable (a location that can be read or assigned), its position and type.
#[derive(Debug)]
pub struct Var {
    pub kind: VarKind,
    pub pos: Pos,
    pub typ: Box<TigerType>,
}

#[derive(Debug)]
pub enum VarKind {
    /// `a`
    Simple(Symbol),
    /// `a[i]`
    Subscript(Box<Var>, Box<AST>),
    /// `a.f`
    Field(Box<Var>, Symbol),
}

/// An unchecked expression node at the start of the text.
pub fn make_ast(node: Exp) -> (r: AST)
    ensures
        r.node == node,
        r.pos == (Pos { line: 0, column: 0 }),
        *r.typ == TigerType::Untyped,
{
    AST { node, pos: Pos { line: 0, column: 0 }, typ: Box::new(TigerType::Untyped) }
}

/// `make_ast`, boxed.
pub fn boxed_ast(node: Exp) -> (r: Box<AST>)
    ensures
        r.node == node,
        r.pos == (Pos { line: 0, column: 0 }),
        *r.typ == TigerType::Untyped,
{
    Box::new(make_ast(node))
}

/// An unchecked variable at the start of the text.
pub fn make_var(kind: VarKind) -> (r: Var)
    ensures
        r.kind == kind,
        r.pos == (Pos { line: 0, column: 0 }),
        *r.typ == TigerType::Untyped,
{
    Var { kind, pos: Pos { line: 0, column: 0 }, typ: Box::new(TigerType::Untyped) }
}

} // verus!
