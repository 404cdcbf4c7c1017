//! The type checker: environments, the typing rules as spec functions, and
//! the entry points that check an expression.
use vstd::prelude::*;
use crate::ast::{AST, Exp, Pos, Var, VarKind};
use crate::env::Env;
use crate::tree::Label;
use crate::types::{R, SpecField, SpecFieldType, SpecType, TigerType, TypeId, clone_type};

pub mod assignexp;
pub mod records;
pub mod varexp;

verus! {

#[derive(Clone, Copy, PartialEq, Eq, Structural, Debug)]
pub enum TypeError {
    UndeclaredType(Pos),
    TypeMismatch(Pos),
    MissingRecordField(Pos),
    TooManyArguments(Pos),
    NotRecordType(Pos),
    ReadOnlyAssignment(Pos),
    NotSimpleVar(Pos),
    UndeclaredSimpleVar(Pos),
    NotArrayType(Pos),
    NonIntegerSubscript(Pos),
    UndeclaredField(Pos),
    /// An expression whose typing rule this checker does not hold.
    Unsupported(Pos),
}

/// What a name in the value environment stands for.
#[derive(Debug)]
pub enum EnvEntry {
    Var { ty: TigerType },
    Func { label: Label, formals: Vec<TigerType>, result: TigerType, external: bool },
}

pub type TypeEnviroment = Env<TigerType>;

pub type ValueEnviroment = Env<EnvEntry>;

/// The model of a checking result.
pub open spec fn type_result(r: Result<TigerType, TypeError>) -> Result<SpecType, TypeError> {
    match r {
        Ok(t) => Ok(t@),
        Err(e) => Err(e),
    }
}

/// A type named in the type environment stands for the type bound to that name there.
pub open spec fn real_type(t: SpecType, tenv: TypeEnviroment) -> SpecType {
    match t {
        SpecType::Internal(name) => if tenv@.dom().contains(name) {
            tenv@[name]@
        } else {
            t
        },
        _ => t,
    }
}

/// The first record type with the given id among the bindings, in order.
pub open spec fn record_with_id(s: Seq<(String, TigerType)>, id: TypeId) -> Option<SpecType>
    decreases s.len(),
{
    if s.len() == 0 {
        None
    } else if s[0].1@ matches SpecType::Record(_, rid) && rid == id {
        Some(s[0].1@)
    } else {
        record_with_id(s.drop_first(), id)
    }
}

/// The type of the first field named `sym`; a field given as a record id has
/// the first record type with that id in the type environment.
pub open spec fn find_field(fields: Seq<SpecField>, sym: Seq<char>, tenv: TypeEnviroment) -> Option<SpecType>
    decreases fields.len(),
{
    if fields.len() == 0 {
        None
    } else if fields[0].name == sym {
        match fields[0].ty {
            SpecFieldType::Type(t) => Some(*t),
            SpecFieldType::Record(id) => record_with_id(tenv.entries(), id),
        }
    } else {
        find_field(fields.drop_first(), sym, tenv)
    }
}

/// Whether a value of type `t` may initialize a field of type `ft`.
pub open spec fn field_accepts(t: SpecType, ft: SpecFieldType) -> bool {
    match ft {
        SpecFieldType::Type(b) => t == *b,
        SpecFieldType::Record(id) => t matches SpecType::Record(_, rid) && rid == id,
    }
}

/// Checks the declared fields in order against the given ones: each declared
/// field must be given, with a type it accepts; then nothing may be left.
pub open spec fn check_formals(
    formals: Seq<SpecField>,
    given: Map<Seq<char>, Result<SpecType, TypeError>>,
    pos: Pos,
) -> Result<(), TypeError>
    decreases formals.len(),
{
    if formals.len() == 0 {
        if given.dom() == Set::<Seq<char>>::empty() {
            Ok(())
        } else {
            Err(TypeError::TooManyArguments(pos))
        }
    } else {
        let f = formals[0];
        if given.dom().contains(f.name) {
            match given[f.name] {
                Ok(t) => if field_accepts(t, f.ty) {
                    check_formals(formals.drop_first(), given.remove(f.name), pos)
                } else {
                    Err(TypeError::TypeMismatch(pos))
                },
                Err(e) => Err(e),
            }
        } else {
            Err(TypeError::MissingRecordField(pos))
        }
    }
}

/// The results of checking the fields of a record expression, by name; where
/// a name is given twice, its first occurrence counts.
pub open spec fn field_results(
    fields: Seq<(String, Box<AST>)>,
    tenv: TypeEnviroment,
    venv: ValueEnviroment,
) -> Map<Seq<char>, Result<SpecType, TypeError>>
    decreases fields,
{
    if fields.len() == 0 {
        Map::empty()
    } else {
        field_results(fields.subrange(1, fields.len() as int), tenv, venv).insert(
            fields[0].0@,
            exp_type(*fields[0].1, tenv, venv),
        )
    }
}

/// The type of a variable, or the error that checking it meets first.
pub open spec fn var_type(v: Var, tenv: TypeEnviroment, venv: ValueEnviroment) -> Result<SpecType, TypeError>
    decreases v,
{
    match v.kind {
        VarKind::Simple(s) => if venv@.dom().contains(s@) {
            match venv@[s@] {
                EnvEntry::Var { ty } => Ok(ty@),
                EnvEntry::Func { .. } => Err(TypeError::NotSimpleVar(v.pos)),
            }
        } else {
            Err(TypeError::UndeclaredSimpleVar(v.pos))
        },
        VarKind::Subscript(sv, idx) => match var_type(*sv, tenv, venv) {
            Err(e) => Err(e),
            Ok(SpecType::Array(elem, _)) => match exp_type(*idx, tenv, venv) {
                Err(e) => Err(e),
                Ok(it) => if it == SpecType::Int(R::RW) {
                    Ok(*elem)
                } else {
                    Err(TypeError::NonIntegerSubscript(v.pos))
                },
            },
            Ok(_) => Err(TypeError::NotArrayType(v.pos)),
        },
        VarKind::Field(fv, sym) => match var_type(*fv, tenv, venv) {
            Err(e) => Err(e),
            Ok(SpecType::Record(fields, _)) => match find_field(fields, sym@, tenv) {
                Some(t) => Ok(t),
                None => Err(TypeError::UndeclaredField(v.pos)),
            },
            Ok(_) => Err(TypeError::NotRecordType(v.pos)),
        },
    }
}

/// The type of an expression, or the error that checking it meets first.
pub open spec fn exp_type(e: AST, tenv: TypeEnviroment, venv: ValueEnviroment) -> Result<SpecType, TypeError>
    decreases e,
{
    match e.node {
        Exp::Var(v) => var_type(v, tenv, venv),
        Exp::Int(_) => Ok(SpecType::Int(R::RW)),
        Exp::String(_) => Ok(SpecType::Str),
        Exp::Record { fields, typ } => {
            let given = field_results(fields@, tenv, venv);
            if tenv@.dom().contains(typ@) {
                match real_type(tenv@[typ@]@, tenv) {
                    SpecType::Record(formals, id) => match check_formals(formals, given, e.pos) {
                        Ok(_) => Ok(SpecType::Record(formals, id)),
                        Err(err) => Err(err),
                    },
                    _ => Err(TypeError::NotRecordType(e.pos)),
                }
            } else {
                Err(TypeError::UndeclaredType(e.pos))
            }
        },
        Exp::Assign { var, exp } => match var_type(var, tenv, venv) {
            Err(err) => Err(err),
            Ok(SpecType::Int(R::RO)) => Err(TypeError::ReadOnlyAssignment(e.pos)),
            Ok(vt) => match exp_type(*exp, tenv, venv) {
                Err(err) => Err(err),
                Ok(t) => if vt == t {
                    Ok(SpecType::Unit)
                } else {
                    Err(TypeError::TypeMismatch(e.pos))
                },
            },
        },
        _ => Err(TypeError::Unsupported(e.pos)),
    }
}

/// `typed` is `orig` with its type and the types of its variable parts filled in.
pub open spec fn exp_annotated(typed: AST, orig: AST, tenv: TypeEnviroment, venv: ValueEnviroment) -> bool
    decreases orig,
{
    &&& typed.pos == orig.pos
    &&& exp_type(orig, tenv, venv) == Ok::<SpecType, TypeError>((*typed.typ)@)
    &&& match orig.node {
        Exp::Var(v) => typed.node matches Exp::Var(tv) && var_annotated(tv, v, tenv, venv),
        _ => typed.node == orig.node,
    }
}

/// `typed` is `orig` with its type and the types of its parts filled in.
pub open spec fn var_annotated(typed: Var, orig: Var, tenv: TypeEnviroment, venv: ValueEnviroment) -> bool
    decreases orig,
{
    &&& typed.pos == orig.pos
    &&& var_type(orig, tenv, venv) == Ok::<SpecType, TypeError>((*typed.typ)@)
    &&& match orig.kind {
        VarKind::Simple(s) => typed.kind == VarKind::Simple(s),
        VarKind::Subscript(sv, idx) => typed.kind matches VarKind::Subscript(tsv, tidx)
            && var_annotated(*tsv, *sv, tenv, venv) && exp_annotated(*tidx, *idx, tenv, venv),
        VarKind::Field(fv, sym) => typed.kind matches VarKind::Field(tfv, tsym) && tsym == sym
            && var_annotated(*tfv, *fv, tenv, venv),
    }
}

/// Resolves a type known by name to the type bound to that name.
pub fn tipo_real(t: TigerType, tenv: &TypeEnviroment) -> (r: TigerType)
    ensures
        r@ == real_type(t@, *tenv),
{
    match t {
        TigerType::TipoInterno(name) => match tenv.get(&name) {
            Some(bound) => clone_type(bound),
            None => TigerType::TipoInterno(name),
        },
        other => other,
    }
}

/// Checks an expression and returns it with its type (and the types of its
/// variable parts) filled in, or the first error met.
pub fn type_exp(ast: AST, type_env: &TypeEnviroment, value_env: &ValueEnviroment) -> (r: Result<AST, TypeError>)
    ensures
        r matches Ok(t) ==> exp_annotated(t, ast, *type_env, *value_env),
        r matches Err(err) ==> exp_type(ast, *type_env, *value_env) == Err::<SpecType, TypeError>(err),
    decreases ast, 1nat,
{
    if let Exp::Var(_) = &ast.node {
        return varexp::typecheck(ast, type_env, value_env);
    }
    match type_of(&ast, type_env, value_env) {
        Ok(t) => Ok(AST { node: ast.node, pos: ast.pos, typ: Box::new(t) }),
        Err(err) => Err(err),
    }
}

/// The type of an expression, or the first error met in checking it.
pub fn type_of(ast: &AST, type_env: &TypeEnviroment, value_env: &ValueEnviroment) -> (r: Result<TigerType, TypeError>)
    ensures
        type_result(r) == exp_type(*ast, *type_env, *value_env),
    decreases *ast, 1nat,
{
    match &ast.node {
        Exp::Var(v) => varexp::type_of_var(v, type_env, value_env),
        Exp::Int(_) => Ok(TigerType::TInt(R::RW)),
        Exp::String(_) => Ok(TigerType::TString),
        Exp::Record { .. } => crate::seman::recordexp::typecheck(ast, type_env, value_env),
        Exp::Assign { .. } => assignexp::typecheck(ast, type_env, value_env),
        _ => Err(TypeError::Unsupported(ast.pos)),
    }
}

/// The types every program starts with: `int` and `string`.
pub fn initial_type_env() -> (r: TypeEnviroment)
    ensures
        r@.dom() == set!["int"@, "string"@],
        r@["int"@]@ == SpecType::Int(R::RW),
        r@["string"@]@ == SpecType::Str,
{
    let mut env: TypeEnviroment = Env::new();
    env.insert(String::from_str("int"), TigerType::TInt(R::RW));
    env.insert(String::from_str("string"), TigerType::TString);
    proof {
        reveal_strlit("int");
        reveal_strlit("string");
        assert("int"@.len() != "string"@.len());
        assert(env@.dom() =~= set!["int"@, "string"@]);
    }
    env
}

/// A runtime function under the label number `id`, taking and returning the given types.
pub open spec fn is_runtime_function(e: EnvEntry, id: u64, formals: Seq<SpecType>, result: SpecType) -> bool {
    match e {
        EnvEntry::Func { label, formals: fs, result: res, external } => label == (Label { id })
            && fs@.map_values(|t: TigerType| t@) == formals && res@ == result && external,
        _ => false,
    }
}

fn runtime_function(id: u64, formals: Vec<TigerType>, result: TigerType) -> (r: EnvEntry)
    ensures
        is_runtime_function(r, id, formals@.map_values(|t: TigerType| t@), result@),
{
    EnvEntry::Func { label: Label { id }, formals, result, external: true }
}

/// The functions every program starts with: Tiger's runtime library.
pub fn initial_value_env() -> (r: ValueEnviroment)
    ensures
        r@.dom() == set![
            "print"@, "flush"@, "getchar"@, "ord"@, "chr"@, "size"@, "substring"@, "concat"@, "not"@,
            "exit"@,
        ],
        is_runtime_function(r@["print"@], 0, seq![SpecType::Str], SpecType::Unit),
        is_runtime_function(r@["flush"@], 1, seq![], SpecType::Unit),
        is_runtime_function(r@["getchar"@], 2, seq![], SpecType::Str),
        is_runtime_function(r@["ord"@], 3, seq![SpecType::Str], SpecType::Int(R::RW)),
        is_runtime_function(r@["chr"@], 4, seq![SpecType::Int(R::RW)], SpecType::Str),
        is_runtime_function(r@["size"@], 5, seq![SpecType::Str], SpecType::Int(R::RW)),
        is_runtime_function(
            r@["substring"@],
            6,
            seq![SpecType::Str, SpecType::Int(R::RW), SpecType::Int(R::RW)],
            SpecType::Str,
        ),
        is_runtime_function(r@["concat"@], 7, seq![SpecType::Str, SpecType::Str], SpecType::Str),
        is_runtime_function(r@["not"@], 8, seq![SpecType::Int(R::RW)], SpecType::Int(R::RW)),
        is_runtime_function(r@["exit"@], 9, seq![SpecType::Int(R::RW)], SpecType::Unit),
{
    let mut env: ValueEnviroment = Env::new();
    let f0: Vec<TigerType> = vec![TigerType::TString];
    assert(f0@.map_values(|t: TigerType| t@) =~= seq![SpecType::Str]);
    let e0 = runtime_function(0, f0, TigerType::TUnit);
    let ghost g0 = e0;
    env.insert(String::from_str("print"), e0);
    let f1: Vec<TigerType> = vec![];
    assert(f1@.map_values(|t: TigerType| t@) =~= seq![]);
    let e1 = runtime_function(1, f1, TigerType::TUnit);
    let ghost g1 = e1;
    env.insert(String::from_str("flush"), e1);
    let f2: Vec<TigerType> = vec![];
    assert(f2@.map_values(|t: TigerType| t@) =~= seq![]);
    let e2 = runtime_function(2, f2, TigerType::TString);
    let ghost g2 = e2;
    env.insert(String::from_str("getchar"), e2);
    let f3: Vec<TigerType> = vec![TigerType::TString];
    assert(f3@.map_values(|t: TigerType| t@) =~= seq![SpecType::Str]);
    let e3 = runtime_function(3, f3, TigerType::TInt(R::RW));
    let ghost g3 = e3;
    env.insert(String::from_str("ord"), e3);
    let f4: Vec<TigerType> = vec![TigerType::TInt(R::RW)];
    assert(f4@.map_values(|t: TigerType| t@) =~= seq![SpecType::Int(R::RW)]);
    let e4 = runtime_function(4, f4, TigerType::TString);
    let ghost g4 = e4;
    env.insert(String::from_str("chr"), e4);
    let f5: Vec<TigerType> = vec![TigerType::TString];
    assert(f5@.map_values(|t: TigerType| t@) =~= seq![SpecType::Str]);
    let e5 = runtime_function(5, f5, TigerType::TInt(R::RW));
    let ghost g5 = e5;
    env.insert(String::from_str("size"), e5);
    let f6: Vec<TigerType> = vec![TigerType::TString, TigerType::TInt(R::RW), TigerType::TInt(R::RW)];
    assert(f6@.map_values(|t: TigerType| t@) =~= seq![SpecType::Str, SpecType::Int(R::RW), SpecType::Int(R::RW)]);
    let e6 = runtime_function(6, f6, TigerType::TString);
    let ghost g6 = e6;
    env.insert(String::from_str("substring"), e6);
    let f7: Vec<TigerType> = vec![TigerType::TString, TigerType::TString];
    assert(f7@.map_values(|t: TigerType| t@) =~= seq![SpecType::Str, SpecType::Str]);
    let e7 = runtime_function(7, f7, TigerType::TString);
    let ghost g7 = e7;
    env.insert(String::from_str("concat"), e7);
    let f8: Vec<TigerType> = vec![TigerType::TInt(R::RW)];
    assert(f8@.map_values(|t: TigerType| t@) =~= seq![SpecType::Int(R::RW)]);
    let e8 = runtime_function(8, f8, TigerType::TInt(R::RW));
    let ghost g8 = e8;
    env.insert(String::from_str("not"), e8);
    let f9: Vec<TigerType> = vec![TigerType::TInt(R::RW)];
    assert(f9@.map_values(|t: TigerType| t@) =~= seq![SpecType::Int(R::RW)]);
    let e9 = runtime_function(9, f9, TigerType::TUnit);
    let ghost g9 = e9;
    env.insert(String::from_str("exit"), e9);
    proof {
        reveal_strlit("print");
        reveal_strlit("flush");
        reveal_strlit("getchar");
        reveal_strlit("ord");
        reveal_strlit("chr");
        reveal_strlit("size");
        reveal_strlit("substring");
        reveal_strlit("concat");
        reveal_strlit("not");
        reveal_strlit("exit");
        assert("print"@[0] != "flush"@[0]);
        assert("print"@.len() != "getchar"@.len());
        assert("print"@.len() != "ord"@.len());
        assert("print"@.len() != "chr"@.len());
        assert("print"@.len() != "size"@.len());
        assert("print"@.len() != "substring"@.len());
        assert("print"@.len() != "concat"@.len());
        assert("print"@.len() != "not"@.len());
        assert("print"@.len() != "exit"@.len());
        assert("flush"@.len() != "getchar"@.len());
        assert("flush"@.len() != "ord"@.len());
        assert("flush"@.len() != "chr"@.len());
        assert("flush"@.len() != "size"@.len());
        assert("flush"@.len() != "substring"@.len());
        assert("flush"@.len() != "concat"@.len());
        assert("flush"@.len() != "not"@.len());
        assert("flush"@.len() != "exit"@.len());
        assert("getchar"@.len() != "ord"@.len());
        assert("getchar"@.len() != "chr"@.len());
        assert("getchar"@.len() != "size"@.len());
        assert("getchar"@.len() != "substring"@.len());
        assert("getchar"@.len() != "concat"@.len());
        assert("getchar"@.len() != "not"@.len());
        assert("getchar"@.len() != "exit"@.len());
        assert("ord"@[0] != "chr"@[0]);
        assert("ord"@.len() != "size"@.len());
        assert("ord"@.len() != "substring"@.len());
        assert("ord"@.len() != "concat"@.len());
        assert("ord"@[0] != "not"@[0]);
        assert("ord"@.len() != "exit"@.len());
        assert("chr"@.len() != "size"@.len());
        assert("chr"@.len() != "substring"@.len());
        assert("chr"@.len() != "concat"@.len());
        assert("chr"@[0] != "not"@[0]);
        assert("chr"@.len() != "exit"@.len());
        assert("size"@.len() != "substring"@.len());
        assert("size"@.len() != "concat"@.len());
        assert("size"@.len() != "not"@.len());
        assert("size"@[0] != "exit"@[0]);
        assert("substring"@.len() != "concat"@.len());
        assert("substring"@.len() != "not"@.len());
        assert("substring"@.len() != "exit"@.len());
        assert("concat"@.len() != "not"@.len());
        assert("concat"@.len() != "exit"@.len());
        assert("not"@.len() != "exit"@.len());
        assert(env@["print"@] == g0);
        assert(env@["flush"@] == g1);
        assert(env@["getchar"@] == g2);
        assert(env@["ord"@] == g3);
        assert(env@["chr"@] == g4);
        assert(env@["size"@] == g5);
        assert(env@["substring"@] == g6);
        assert(env@["concat"@] == g7);
        assert(env@["not"@] == g8);
        assert(env@["exit"@] == g9);
        assert(env@.dom() =~= set![
            "print"@, "flush"@, "getchar"@, "ord"@, "chr"@, "size"@, "substring"@, "concat"@, "not"@,
            "exit"@,
        ]);
    }
    env
}

/// The names of a list of fields, in order.
pub open spec fn field_names(formals: Seq<SpecField>) -> Seq<Seq<char>> {
    formals.map_values(|f: SpecField| f.name)
}

/// A successful check of the declared fields against the given ones: the
/// given names are exactly the declared ones, no name is declared twice, and
/// each declared field is given with a type it accepts.
pub proof fn lemma_check_formals_ok(
    formals: Seq<SpecField>,
    given: Map<Seq<char>, Result<SpecType, TypeError>>,
    pos: Pos,
)
    requires
        check_formals(formals, given, pos) is Ok,
    ensures
        given.dom() == field_names(formals).to_set(),
        field_names(formals).no_duplicates(),
        forall|i: int| 0 <= i < formals.len() ==> {
            &&& given.dom().contains(#[trigger] formals[i].name)
            &&& given[formals[i].name] matches Ok(t) && field_accepts(t, formals[i].ty)
        },
    decreases formals.len(),
{
    if formals.len() == 0 {
        assert(field_names(formals).to_set() =~= Set::<Seq<char>>::empty());
    } else {
        let f = formals[0];
        let rest = formals.drop_first();
        let given2 = given.remove(f.name);
        lemma_check_formals_ok(rest, given2, pos);
        assert(field_names(formals) =~= seq![f.name] + field_names(rest));
        assert forall|x: Seq<char>| given.dom().contains(x) <==> field_names(formals).to_set().contains(x) by {
            if given.dom().contains(x) && x != f.name {
                assert(given2.dom().contains(x));
                assert(field_names(rest).to_set().contains(x));
                let k = choose|k: int| 0 <= k < field_names(rest).len() && field_names(rest)[k] == x;
                assert(field_names(formals)[k + 1] == x);
            }
            if x == f.name {
                assert(field_names(formals)[0] == x);
            }
            if field_names(formals).to_set().contains(x) && x != f.name {
                let k = choose|k: int| 0 <= k < field_names(formals).len() && field_names(formals)[k] == x;
                assert(k > 0);
                assert(field_names(rest)[k - 1] == x);
                assert(field_names(rest).to_set().contains(x));
            }
        }
        assert(given.dom() =~= field_names(formals).to_set());
        assert forall|i: int, j: int| 0 <= i < j < field_names(formals).len()
            implies field_names(formals)[i] != field_names(formals)[j] by {
            if i == 0 {
                assert(field_names(rest)[j - 1] == field_names(formals)[j]);
                assert(given2.dom().contains(rest[j - 1].name));
            } else {
                assert(field_names(rest)[i - 1] == field_names(formals)[i]);
                assert(field_names(rest)[j - 1] == field_names(formals)[j]);
            }
        }
        assert forall|i: int| 0 <= i < formals.len() implies {
            &&& given.dom().contains(#[trigger] formals[i].name)
            &&& given[formals[i].name] matches Ok(t) && field_accepts(t, formals[i].ty)
        } by {
            if i > 0 {
                assert(rest[i - 1] == formals[i]);
                assert(given2.dom().contains(formals[i].name));
            }
        }
    }
}

/// A record expression checks exactly when its type name is bound to a record
/// type whose fields are all given, each once by name with a type the field
/// accepts, and no other field is given; its type is then that record type.
pub proof fn lemma_record_expression(e: AST, tenv: TypeEnviroment, venv: ValueEnviroment)
    requires
        e.node is Record,
        exp_type(e, tenv, venv) is Ok,
    ensures
        match e.node {
            Exp::Record { fields, typ } => {
                let given = field_results(fields@, tenv, venv);
                &&& tenv@.dom().contains(typ@)
                &&& exp_type(e, tenv, venv) == Ok::<SpecType, TypeError>(real_type(tenv@[typ@]@, tenv))
                &&& real_type(tenv@[typ@]@, tenv) matches SpecType::Record(formals, _) && {
                    &&& given.dom() == field_names(formals).to_set()
                    &&& field_names(formals).no_duplicates()
                    &&& forall|i: int| 0 <= i < formals.len() ==> (#[trigger] given[formals[i].name] matches Ok(t)
                        && field_accepts(t, formals[i].ty))
                }
            },
            _ => true,
        },
{
    match e.node {
        Exp::Record { fields, typ } => {
            let given = field_results(fields@, tenv, venv);
            match real_type(tenv@[typ@]@, tenv) {
                SpecType::Record(formals, _) => {
                    lemma_check_formals_ok(formals, given, e.pos);
                },
                _ => {},
            }
        },
        _ => {},
    }
}

/// An assignment that checks has no value; one to a read-only variable is
/// refused; otherwise it checks exactly when the variable and the value
/// check with equal types.
pub proof fn lemma_assignment(e: AST, tenv: TypeEnviroment, venv: ValueEnviroment)
    requires
        e.node is Assign,
    ensures
        exp_type(e, tenv, venv) is Ok ==> exp_type(e, tenv, venv) == Ok::<SpecType, TypeError>(SpecType::Unit),
        match e.node {
            Exp::Assign { var, exp } => {
                &&& var_type(var, tenv, venv) == Ok::<SpecType, TypeError>(SpecType::Int(R::RO))
                    ==> exp_type(e, tenv, venv) == Err::<SpecType, TypeError>(TypeError::ReadOnlyAssignment(e.pos))
                &&& exp_type(e, tenv, venv) is Ok <==> {
                    &&& var_type(var, tenv, venv) is Ok
                    &&& var_type(var, tenv, venv) != Ok::<SpecType, TypeError>(SpecType::Int(R::RO))
                    &&& var_type(var, tenv, venv) == exp_type(*exp, tenv, venv)
                }
            },
            _ => true,
        },
{
}

/// A subscripted variable checks exactly when the variable has an array type
/// and the index has type int; its type is then the element type.
pub proof fn lemma_subscript(v: Var, tenv: TypeEnviroment, venv: ValueEnviroment)
    requires
        v.kind is Subscript,
    ensures
        match v.kind {
            VarKind::Subscript(sv, idx) => var_type(v, tenv, venv) is Ok <==> {
                &&& var_type(*sv, tenv, venv) matches Ok(SpecType::Array(elem, _))
                    && var_type(v, tenv, venv) == Ok::<SpecType, TypeError>(*elem)
                &&& exp_type(*idx, tenv, venv) == Ok::<SpecType, TypeError>(SpecType::Int(R::RW))
            },
            _ => true,
        },
{
}

/// Checking only fills in types: what `type_exp` returns has the type that
/// `type_of` finds, and apart from variables the node is kept as written.
pub proof fn lemma_annotation_keeps_expression(typed: AST, orig: AST, tenv: TypeEnviroment, venv: ValueEnviroment)
    requires
        exp_annotated(typed, orig, tenv, venv),
    ensures
        exp_type(orig, tenv, venv) == Ok::<SpecType, TypeError>((*typed.typ)@),
        typed.pos == orig.pos,
        !(orig.node is Var) ==> typed.node == orig.node,
{
}

} // verus!
