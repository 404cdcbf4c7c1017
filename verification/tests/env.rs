use hector::env::Env;
use hector::typecheck::{initial_type_env, initial_value_env, EnvEntry};
use hector::tree::Label;
use hector::types::{TigerType, R};

#[test]
fn insert_then_get() {
    let mut env: Env<u32> = Env::new();
    assert!(env.is_empty());
    env.insert(String::from("a"), 1);
    env.insert(String::from("b"), 2);
    assert_eq!(env.get(&String::from("a")), Some(&1));
    assert_eq!(env.get(&String::from("b")), Some(&2));
    assert_eq!(env.get(&String::from("c")), None);
    assert!(!env.is_empty());
}

#[test]
fn insert_replaces_in_place() {
    let mut env: Env<u32> = Env::new();
    env.insert(String::from("a"), 1);
    env.insert(String::from("b"), 2);
    env.insert(String::from("a"), 3);
    assert_eq!(env.get(&String::from("a")), Some(&3));
    assert_eq!(env.bindings(), &vec![(String::from("a"), 3), (String::from("b"), 2)]);
}

#[test]
fn remove_drops_the_binding() {
    let mut env: Env<u32> = Env::new();
    env.insert(String::from("a"), 1);
    env.insert(String::from("b"), 2);
    env.remove(&String::from("a"));
    assert_eq!(env.get(&String::from("a")), None);
    assert_eq!(env.get(&String::from("b")), Some(&2));
    env.remove(&String::from("zzz"));
    assert_eq!(env.bindings(), &vec![(String::from("b"), 2)]);
    env.remove(&String::from("b"));
    assert!(env.is_empty());
}

#[test]
fn initial_types() {
    let env = initial_type_env();
    assert_eq!(env.get(&String::from("int")), Some(&TigerType::TInt(R::RW)));
    assert_eq!(env.get(&String::from("string")), Some(&TigerType::TString));
    assert_eq!(env.bindings().len(), 2);
}

#[test]
fn initial_values_are_the_runtime_functions() {
    let env = initial_value_env();
    assert_eq!(env.bindings().len(), 10);
    match env.get(&String::from("substring")) {
        Some(EnvEntry::Func { label, formals, result, external }) => {
            assert_eq!(*label, Label { id: 6 });
            assert_eq!(formals, &vec![TigerType::TString, TigerType::TInt(R::RW), TigerType::TInt(R::RW)]);
            assert_eq!(*result, TigerType::TString);
            assert!(*external);
        }
        _ => panic!("substring should be a function"),
    }
    assert!(matches!(env.get(&String::from("print")), Some(EnvEntry::Func { label: Label { id: 0 }, .. })));
    assert!(matches!(env.get(&String::from("exit")), Some(EnvEntry::Func { label: Label { id: 9 }, .. })));
}
