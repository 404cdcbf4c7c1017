//! Tiger types, their mathematical model and the operations on them that the
//! checker needs (copying and comparing).
use vstd::prelude::*;

verus! {

/// Whether an integer location may be written (`RW`) or only read (`RO`,
/// as the index variable of a `for` loop).
#[derive(Clone, Copy, PartialEq, Eq, Structural, Debug)]
pub enum R {
    RO,
    RW,
}

/// The identity of an array or record type: two such types declared apart
/// differ by their ids.
#[derive(Clone, Copy, PartialEq, Eq, Structural, Debug)]
pub struct TypeId {
    pub id: u64,
}

impl TypeId {
    pub fn new(id: u64) -> (r: TypeId)
        ensures
            r.id == id,
    {
        TypeId { id }
    }
}

/// The type of a record field: a type given directly, or a reference by id
/// to a record type (which lets record types refer to themselves).
#[derive(PartialEq, Debug)]
pub enum RecordFieldType {
    Type(Box<TigerType>),
    Record(TypeId),
}

#[derive(PartialEq, Debug)]
pub enum TigerType {
    TUnit,
    TNil,
    TInt(R),
    TString,
    TArray(Box<TigerType>, TypeId),
    /// Fields: name, type and position in the record.
    TRecord(Vec<(String, RecordFieldType, i32)>, TypeId),
    /// A type known so far only by name, to be resolved in the type environment.
    TipoInterno(String),
    Untyped,
}

/// The model of a record field's type.
pub enum SpecFieldType {
    Type(Box<SpecType>),
    Record(TypeId),
}

/// The model of a record field.
pub struct SpecField {
    pub name: Seq<char>,
    pub ty: SpecFieldType,
    pub index: i32,
}

/// The model of a Tiger type: names as character sequences, fields as a sequence.
pub enum SpecType {
    Unit,
    Nil,
    Int(R),
    Str,
    Array(Box<SpecType>, TypeId),
    Record(Seq<SpecField>, TypeId),
    Internal(Seq<char>),
    Untyped,
}

impl TigerType {
    pub open spec fn view(&self) -> SpecType
        decreases self,
    {
        match self {
            TigerType::TUnit => SpecType::Unit,
            TigerType::TNil => SpecType::Nil,
            TigerType::TInt(r) => SpecType::Int(*r),
            TigerType::TString => SpecType::Str,
            TigerType::TArray(t, id) => SpecType::Array(Box::new((**t).view()), *id),
            TigerType::TRecord(fields, id) => SpecType::Record(fields_view(fields@), *id),
            TigerType::TipoInterno(s) => SpecType::Internal(s@),
            TigerType::Untyped => SpecType::Untyped,
        }
    }
}

pub open spec fn field_type_view(ft: RecordFieldType) -> SpecFieldType
    decreases ft,
{
    match ft {
        RecordFieldType::Type(t) => SpecFieldType::Type(Box::new((*t).view())),
        RecordFieldType::Record(id) => SpecFieldType::Record(id),
    }
}

pub open spec fn field_view(f: (String, RecordFieldType, i32)) -> SpecField
    decreases f,
{
    SpecField { name: f.0@, ty: field_type_view(f.1), index: f.2 }
}

pub open spec fn fields_view(s: Seq<(String, RecordFieldType, i32)>) -> Seq<SpecField>
    decreases s,
{
    if s.len() == 0 {
        Seq::empty()
    } else {
        fields_view(s.subrange(0, s.len() - 1)).push(field_view(s[s.len() - 1]))
    }
}

/// The model of a field list keeps its length and models each field in place.
pub proof fn lemma_fields_view(s: Seq<(String, RecordFieldType, i32)>)
    ensures
        fields_view(s).len() == s.len(),
        forall|i: int| 0 <= i < s.len() ==> #[trigger] fields_view(s)[i] == field_view(s[i]),
    decreases s.len(),
{
    if s.len() > 0 {
        lemma_fields_view(s.subrange(0, s.len() - 1));
    }
}

/// Two field lists whose fields have pairwise equal models have equal models.
pub proof fn lemma_fields_view_eq(a: Seq<(String, RecordFieldType, i32)>, b: Seq<(String, RecordFieldType, i32)>)
    requires
        a.len() == b.len(),
        forall|i: int| 0 <= i < a.len() ==> field_view(#[trigger] a[i]) == field_view(b[i]),
    ensures
        fields_view(a) == fields_view(b),
{
    lemma_fields_view(a);
    lemma_fields_view(b);
    assert(fields_view(a) =~= fields_view(b));
}

/// A copy of a type, with the same model.
pub fn clone_type(t: &TigerType) -> (r: TigerType)
    ensures
        r@ == t@,
    decreases t,
{
    match t {
        TigerType::TUnit => TigerType::TUnit,
        TigerType::TNil => TigerType::TNil,
        TigerType::TInt(r) => TigerType::TInt(*r),
        TigerType::TString => TigerType::TString,
        TigerType::TArray(inner, id) => TigerType::TArray(Box::new(clone_type(inner)), *id),
        TigerType::TRecord(fields, id) => {
            let mut out: Vec<(String, RecordFieldType, i32)> = Vec::new();
            let n = fields.len();
            #[verifier::loop_isolation(false)]
            for i in 0..n
                invariant
                    n == fields@.len(),
                    out@.len() == i,
                    forall|j: int| 0 <= j < i ==> field_view(#[trigger] out@[j]) == field_view(fields@[j]),
            {
                let f = &fields[i];
                assert(decreases_to!(fields@ => fields@[i as int]));
                let ty = match &f.1 {
                    RecordFieldType::Type(b) => RecordFieldType::Type(Box::new(clone_type(b))),
                    RecordFieldType::Record(rid) => RecordFieldType::Record(*rid),
                };
                out.push((f.0.clone(), ty, f.2));
            }
            proof {
                lemma_fields_view_eq(out@, fields@);
            }
            TigerType::TRecord(out, *id)
        },
        TigerType::TipoInterno(s) => TigerType::TipoInterno(s.clone()),
        TigerType::Untyped => TigerType::Untyped,
    }
}

/// Compares two types: true exactly when their models are equal.
pub fn types_equal(a: &TigerType, b: &TigerType) -> (r: bool)
    ensures
        r == (a@ == b@),
    decreases a,
{
    match (a, b) {
        (TigerType::TUnit, TigerType::TUnit) => true,
        (TigerType::TNil, TigerType::TNil) => true,
        (TigerType::TInt(r1), TigerType::TInt(r2)) => *r1 == *r2,
        (TigerType::TString, TigerType::TString) => true,
        (TigerType::TArray(t1, id1), TigerType::TArray(t2, id2)) => {
            *id1 == *id2 && types_equal(t1, t2)
        },
        (TigerType::TRecord(f1, id1), TigerType::TRecord(f2, id2)) => {
            proof {
                lemma_fields_view(f1@);
                lemma_fields_view(f2@);
            }
            if *id1 != *id2 || f1.len() != f2.len() {
                return false;
            }
            let n = f1.len();
            #[verifier::loop_isolation(false)]
            for i in 0..n
                invariant
                    n == f1@.len(),
                    n == f2@.len(),
                    fields_view(f1@).len() == n,
                    fields_view(f2@).len() == n,
                    forall|j: int| 0 <= j < n ==> #[trigger] fields_view(f1@)[j] == field_view(f1@[j]),
                    forall|j: int| 0 <= j < n ==> #[trigger] fields_view(f2@)[j] == field_view(f2@[j]),
                    forall|j: int| 0 <= j < i ==> field_view(#[trigger] f1@[j]) == field_view(f2@[j]),
            {
                let x = &f1[i];
                let y = &f2[i];
                assert(decreases_to!(f1@ => f1@[i as int]));
                if x.0 != y.0 || x.2 != y.2 {
                    assert(fields_view(f1@)[i as int] != fields_view(f2@)[i as int]);
                    return false;
                }
                let same = match (&x.1, &y.1) {
                    (RecordFieldType::Type(b1), RecordFieldType::Type(b2)) => types_equal(b1, b2),
                    (RecordFieldType::Record(r1), RecordFieldType::Record(r2)) => *r1 == *r2,
                    _ => false,
                };
                if !same {
                    assert(fields_view(f1@)[i as int] != fields_view(f2@)[i as int]);
                    return false;
                }
            }
            proof {
                lemma_fields_view_eq(f1@, f2@);
            }
            true
        },
        (TigerType::TipoInterno(s1), TigerType::TipoInterno(s2)) => *s1 == *s2,
        (TigerType::Untyped, TigerType::Untyped) => true,
        _ => false,
    }
}

} // verus!
