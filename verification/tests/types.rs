use hector::typecheck::{initial_type_env, tipo_real};
use hector::types::{clone_type, types_equal, RecordFieldType, TigerType, TypeId, R};

fn string_array() -> TigerType {
    TigerType::TArray(Box::new(TigerType::TString), TypeId::new(2))
}

fn rec(name: &str, id: u64) -> TigerType {
    TigerType::TRecord(
        vec![
            (String::from(name), RecordFieldType::Type(Box::new(string_array())), 0),
            (String::from("next"), RecordFieldType::Record(TypeId::new(id)), 1),
        ],
        TypeId::new(id),
    )
}

#[test]
fn copies_are_equal() {
    let t = rec("a", 3);
    let c = clone_type(&t);
    assert_eq!(c, t);
    assert!(types_equal(&t, &c));
}

#[test]
fn equality_compares_structure_and_ids() {
    assert!(types_equal(&TigerType::TInt(R::RW), &TigerType::TInt(R::RW)));
    assert!(!types_equal(&TigerType::TInt(R::RW), &TigerType::TInt(R::RO)));
    assert!(!types_equal(&TigerType::TNil, &TigerType::TUnit));
    assert!(!types_equal(&rec("a", 3), &rec("b", 3)));
    assert!(!types_equal(&rec("a", 3), &rec("a", 4)));
    assert!(types_equal(&rec("a", 3), &rec("a", 3)));
    assert!(!types_equal(
        &TigerType::TArray(Box::new(TigerType::TString), TypeId::new(1)),
        &TigerType::TArray(Box::new(TigerType::TInt(R::RW)), TypeId::new(1))
    ));
    assert!(types_equal(&TigerType::TipoInterno(String::from("x")), &TigerType::TipoInterno(String::from("x"))));
}

#[test]
fn named_types_resolve_one_step() {
    let env = initial_type_env();
    assert_eq!(tipo_real(TigerType::TipoInterno(String::from("int")), &env), TigerType::TInt(R::RW));
    assert_eq!(tipo_real(TigerType::TipoInterno(String::from("nope")), &env), TigerType::TipoInterno(String::from("nope")));
    assert_eq!(tipo_real(TigerType::TString, &env), TigerType::TString);
}
