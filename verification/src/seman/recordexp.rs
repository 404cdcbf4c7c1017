//! Checking record expressions, as in `Point { x = 1, y = 2 }`.
use vstd::prelude::*;
use crate::ast::{AST, Exp};
use crate::env::Env;
use crate::tree;
use crate::types::{
    RecordFieldType, SpecField, SpecType, TigerType, field_type_view, field_view, fields_view,
    lemma_fields_view, types_equal,
};
use crate::typecheck::{
    TypeEnviroment, TypeError, ValueEnviroment, check_formals, exp_type, field_accepts, field_results,
    tipo_real, type_of, type_result,
};

verus! {

/// The model of checking results kept by field name.
pub open spec fn results_view(m: Map<Seq<char>, Result<TigerType, TypeError>>) -> Map<Seq<char>, Result<SpecType, TypeError>> {
    m.map_values(|r: Result<TigerType, TypeError>| type_result(r))
}

/// Whether a value of type `t` may initialize a field of type `ft`.
fn accepts(t: &TigerType, ft: &RecordFieldType) -> (r: bool)
    ensures
        r == field_accepts(t@, field_type_view(*ft)),
{
    match ft {
        RecordFieldType::Type(b) => types_equal(t, b),
        RecordFieldType::Record(id) => match t {
            TigerType::TRecord(_, rid) => *rid == *id,
            _ => false,
        },
    }
}

/// Checks a record expression: the named type must be a record type, every
/// declared field must be given with a type it accepts, and no other field
/// may be given. All given fields are checked first; a field's error comes
/// out when its declared field is reached.
pub fn typecheck(exp: &AST, type_env: &TypeEnviroment, value_env: &ValueEnviroment) -> (r: Result<TigerType, TypeError>)
    requires
        exp.node is Record,
    ensures
        type_result(r) == exp_type(*exp, *type_env, *value_env),
    decreases *exp, 0nat,
{
    match &exp.node {
        Exp::Record { fields, typ: record_type_string } => {
            let pos = exp.pos;
            // The results by field name; inserting from the last field to the
            // first lets the first occurrence of a name count.
            let mut field_types: Env<Result<TigerType, TypeError>> = Env::new();
            let n = fields.len();
            let mut i = n;
            assert(fields@.subrange(n as int, n as int) =~= Seq::<(String, Box<AST>)>::empty());
            assert(results_view(field_types@) =~= Map::<Seq<char>, Result<SpecType, TypeError>>::empty());
            #[verifier::loop_isolation(false)]
            while i > 0
                invariant
                    i <= n,
                    n == fields@.len(),
                    results_view(field_types@) == field_results(fields@.subrange(i as int, n as int), *type_env, *value_env),
                decreases i,
            {
                i = i - 1;
                assert(decreases_to!(fields@ => fields@[i as int]));
                let result = type_of(&fields[i].1, type_env, value_env);
                let ghost before = field_types@;
                field_types.insert(fields[i].0.clone(), result);
                proof {
                    let s = fields@.subrange(i as int, n as int);
                    assert(s[0] == fields@[i as int]);
                    assert(s.subrange(1, s.len() as int) =~= fields@.subrange(i + 1, n as int));
                    assert(results_view(field_types@) =~= results_view(before).insert(fields@[i as int].0@, type_result(result)));
                }
            }
            assert(fields@.subrange(0, n as int) =~= fields@);
            let record_type = match type_env.get(record_type_string) {
                Some(tipo) => tipo_real(crate::types::clone_type(tipo), type_env),
                None => return Err(TypeError::UndeclaredType(pos)),
            };
            match record_type {
                TigerType::TRecord(formals, type_id) => {
                    let ghost fv = fields_view(formals@);
                    let ghost given = results_view(field_types@);
                    proof {
                        lemma_fields_view(formals@);
                    }
                    let m = formals.len();
                    assert(fv.subrange(0, m as int) =~= fv);
                    #[verifier::loop_isolation(false)]
                    for j in 0..m
                        invariant
                            m == formals@.len(),
                            fv == fields_view(formals@),
                            fv.len() == m,
                            forall|k: int| 0 <= k < m ==> #[trigger] fv[k] == field_view(formals@[k]),
                            check_formals(fv, given, pos) == check_formals(fv.subrange(j as int, m as int), results_view(field_types@), pos),
                    {
                        let ghost rest = fv.subrange(j as int, m as int);
                        assert(rest[0] == fv[j as int]);
                        assert(rest.drop_first() =~= fv.subrange(j + 1, m as int));
                        let formal = &formals[j];
                        match field_types.get(&formal.0) {
                            Some(Ok(field_type)) => {
                                if accepts(field_type, &formal.1) {
                                    let ghost before = field_types@;
                                    field_types.remove(&formal.0);
                                    assert(results_view(field_types@) =~= results_view(before).remove(formal.0@));
                                } else {
                                    return Err(TypeError::TypeMismatch(pos));
                                }
                            },
                            Some(Err(type_error)) => return Err(*type_error),
                            None => return Err(TypeError::MissingRecordField(pos)),
                        }
                    }
                    assert(fv.subrange(m as int, m as int) =~= Seq::<SpecField>::empty());
                    if field_types.is_empty() {
                        assert(results_view(field_types@).dom() =~= field_types@.dom());
                        Ok(TigerType::TRecord(formals, type_id))
                    } else {
                        assert(results_view(field_types@).dom() =~= field_types@.dom());
                        Err(TypeError::TooManyArguments(pos))
                    }
                },
                _ => Err(TypeError::NotRecordType(pos)),
            }
        },
        _ => {
            assert(false);
            Err(TypeError::Unsupported(exp.pos))
        },
    }
}

/// Translation of record expressions: not done yet, a record is the constant 0.
pub fn translate(_exp: AST) -> (r: tree::Exp)
    ensures
        r@ == tree::SpecExp::Const(0),
{
    tree::Exp::CONST(0)
}

} // verus!
