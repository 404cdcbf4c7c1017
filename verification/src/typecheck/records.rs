//! What checking says of record types, stated over all inputs: a field
//! declared as a record by id takes exactly the records of that id, both when
//! a record is built and when a field is read.
use vstd::prelude::*;
use crate::ast::{Exp, Var, VarKind, AST};
use crate::types::{SpecField, SpecFieldType, SpecType, TigerType, TypeId};
use super::{
    TypeEnviroment, TypeError, ValueEnviroment, exp_type, field_names, field_results, find_field, lemma_record_expression,
    real_type, record_with_id, var_type,
};

verus! {

/// The binding holds a record type with the given id.
pub open spec fn is_record_with_id(t: SpecType, id: TypeId) -> bool {
    t matches SpecType::Record(_, rid) && rid == id
}

/// Looking a record type up by id finds one exactly when the bindings hold a
/// record type with that id, and then finds the first of them: a record type
/// whose id is the one asked for.
pub proof fn lemma_record_with_id(s: Seq<(String, TigerType)>, id: TypeId)
    ensures
        record_with_id(s, id) is None <==> forall|i: int| 0 <= i < s.len() ==> !is_record_with_id(#[trigger] s[i].1@, id),
        record_with_id(s, id) matches Some(t) ==> {
            &&& is_record_with_id(t, id)
            &&& exists|i: int| {
                &&& 0 <= i < s.len()
                &&& #[trigger] s[i].1@ == t
                &&& forall|j: int| 0 <= j < i ==> !is_record_with_id(#[trigger] s[j].1@, id)
            }
        },
    decreases s.len(),
{
    if s.len() > 0 {
        let rest = s.drop_first();
        lemma_record_with_id(rest, id);
        assert forall|i: int| 0 <= i < rest.len() implies #[trigger] rest[i] == s[i + 1] by {}
        if is_record_with_id(s[0].1@, id) {
            assert(s[0].1@ == s[0].1@);
        } else {
            if record_with_id(rest, id) is None {
                assert forall|i: int| 0 <= i < s.len() implies !is_record_with_id(#[trigger] s[i].1@, id) by {
                    if i > 0 {
                        assert(rest[i - 1] == s[i]);
                    }
                }
            } else {
                let t = record_with_id(rest, id)->0;
                let i = choose|i: int| {
                    &&& 0 <= i < rest.len()
                    &&& #[trigger] rest[i].1@ == t
                    &&& forall|j: int| 0 <= j < i ==> !is_record_with_id(#[trigger] rest[j].1@, id)
                };
                assert(s[i + 1].1@ == t);
                assert forall|j: int| 0 <= j < i + 1 implies !is_record_with_id(#[trigger] s[j].1@, id) by {
                    if j > 0 {
                        assert(rest[j - 1] == s[j]);
                    }
                }
                assert(is_record_with_id(rest[i].1@, id));
                assert(!is_record_with_id(s[0].1@, id));
            }
        }
    }
}

/// The field found for a name is the first field of that name.
proof fn lemma_find_field_first(fields: Seq<SpecField>, sym: Seq<char>, tenv: TypeEnviroment, i: int)
    requires
        0 <= i < fields.len(),
        fields[i].name == sym,
        forall|j: int| 0 <= j < i ==> (#[trigger] fields[j]).name != sym,
    ensures
        find_field(fields, sym, tenv) == match fields[i].ty {
            SpecFieldType::Type(t) => Some(*t),
            SpecFieldType::Record(id) => record_with_id(tenv.entries(), id),
        },
    decreases i,
{
    if i > 0 {
        let rest = fields.drop_first();
        assert forall|j: int| 0 <= j < i - 1 implies (#[trigger] rest[j]).name != sym by {
            assert(rest[j] == fields[j + 1]);
        }
        assert(fields[0].name != sym);
        lemma_find_field_first(rest, sym, tenv, i - 1);
    }
}

/// Reading a field that its record type declares as a record by id `k` gives
/// a record type with id `k`, one bound in the type environment; the read
/// checks exactly when the type environment binds a record type with id `k`.
pub proof fn lemma_field_of_record_id(
    v: Var,
    tenv: TypeEnviroment,
    venv: ValueEnviroment,
    fields: Seq<SpecField>,
    rec_id: TypeId,
    i: int,
    k: TypeId,
)
    requires
        v.kind matches VarKind::Field(fv, sym) && var_type(*fv, tenv, venv) == Ok::<SpecType, TypeError>(
            SpecType::Record(fields, rec_id),
        ) && fields[i].name == sym@,
        0 <= i < fields.len(),
        forall|j: int| 0 <= j < i ==> (#[trigger] fields[j]).name != fields[i].name,
        fields[i].ty == SpecFieldType::Record(k),
    ensures
        var_type(v, tenv, venv) matches Ok(t) ==> is_record_with_id(t, k)
            && exists|j: int| 0 <= j < tenv.entries().len() && #[trigger] tenv.entries()[j].1@ == t,
        var_type(v, tenv, venv) is Ok <==> exists|j: int|
            0 <= j < tenv.entries().len() && is_record_with_id(#[trigger] tenv.entries()[j].1@, k),
{
    if let VarKind::Field(fv, sym) = v.kind {
        lemma_find_field_first(fields, sym@, tenv, i);
        lemma_record_with_id(tenv.entries(), k);
    }
}

/// A record expression that checks gives each declared field a value of the
/// type it declares: exactly that type for a field declared with a type, and
/// a record type with id `k` for a field declared as a record by id `k`.
pub proof fn lemma_record_fields_typed(e: AST, tenv: TypeEnviroment, venv: ValueEnviroment)
    requires
        e.node is Record,
        exp_type(e, tenv, venv) is Ok,
    ensures
        e.node matches Exp::Record { fields, typ } && (real_type(tenv@[typ@]@, tenv) matches SpecType::Record(formals, _)
            && forall|i: int| 0 <= i < formals.len() ==> {
            &&& field_results(fields@, tenv, venv).dom().contains(#[trigger] formals[i].name)
            &&& field_results(fields@, tenv, venv)[formals[i].name] matches Ok(t) && match formals[i].ty {
                SpecFieldType::Type(b) => t == *b,
                SpecFieldType::Record(k) => is_record_with_id(t, k),
            }
        }),
{
    lemma_record_expression(e, tenv, venv);
    if let Exp::Record { fields, typ } = e.node {
        let given = field_results(fields@, tenv, venv);
        if let SpecType::Record(formals, _) = real_type(tenv@[typ@]@, tenv) {
            assert forall|i: int| 0 <= i < formals.len() implies given.dom().contains(#[trigger] formals[i].name) by {
                assert(field_names(formals)[i] == formals[i].name);
                assert(field_names(formals).to_set().contains(formals[i].name));
            }
        }
    }
}

/// A record expression that gives a field declared as a record by id `k` a
/// value of a record type with another id does not check; where that field is
/// the first one declared, the error is a type mismatch at the expression.
pub proof fn lemma_record_field_other_id(e: AST, tenv: TypeEnviroment, venv: ValueEnviroment, i: int, k: TypeId, j: TypeId)
    requires
        e.node matches Exp::Record { fields, typ } && (tenv@.dom().contains(typ@)
            && (real_type(tenv@[typ@]@, tenv) matches SpecType::Record(formals, _) && (0 <= i < formals.len()
            && formals[i].ty == SpecFieldType::Record(k)
            && field_results(fields@, tenv, venv).dom().contains(formals[i].name)
            && (field_results(fields@, tenv, venv)[formals[i].name] matches Ok(SpecType::Record(_, gid)) && gid == j)))),
        j != k,
    ensures
        exp_type(e, tenv, venv) is Err,
        i == 0 ==> exp_type(e, tenv, venv) == Err::<SpecType, TypeError>(TypeError::TypeMismatch(e.pos)),
{
    if exp_type(e, tenv, venv) is Ok {
        lemma_record_fields_typed(e, tenv, venv);
        if let Exp::Record { fields, typ } = e.node {
            if let SpecType::Record(formals, _) = real_type(tenv@[typ@]@, tenv) {
                assert(field_results(fields@, tenv, venv).dom().contains(formals[i].name));
            }
        }
    }
}

} // verus!
