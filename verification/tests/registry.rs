use luaufusion::luau::objreg::{LuauObjectRegistryID, ObjRegistryLuau};
use luaufusion::registry::{ObjectRef, RefKind};

fn table(handle: u64) -> ObjectRef {
    ObjectRef { kind: RefKind::Table, handle }
}

#[test]
fn added_object_is_found() {
    let mut reg = ObjRegistryLuau::new();
    let obj = table(7);
    let id = reg.add(obj).unwrap();
    assert_eq!(id.objid(), 1);
    assert_eq!(reg.get(id), Ok(obj));
    assert_eq!(
        reg.get(LuauObjectRegistryID::from_i64(2)),
        Err("Object with ID 2 not found in registry".to_string())
    );
}

#[test]
fn different_objects_have_different_numbers() {
    let mut reg = ObjRegistryLuau::new();
    let a = reg.add(table(1)).unwrap();
    let b = reg.add(table(2)).unwrap();
    assert_ne!(a, b);
    assert_eq!(reg.add(table(1)), Ok(a));
    assert_eq!(reg.get(a), Ok(table(1)));
    assert_eq!(reg.get(b), Ok(table(2)));
}

#[test]
fn dropping_an_unknown_number_does_nothing() {
    let mut reg = ObjRegistryLuau::new();
    let a = reg.add(table(1)).unwrap();
    reg.drop(LuauObjectRegistryID::from_i64(30));
    assert_eq!(reg.get(a), Ok(table(1)));
    reg.drop(a);
    assert!(reg.get(a).is_err());
    reg.drop(a);
    assert!(reg.get(a).is_err());
}

#[test]
fn registry_tells_what_it_holds() {
    let mut reg = ObjRegistryLuau::new();
    assert!(!reg.is_held(table(1)));
    let a = reg.add(table(1)).unwrap();
    assert!(reg.is_held(table(1)));
    assert!(!reg.is_held(ObjectRef { kind: RefKind::Thread, handle: 1 }));
    reg.drop(a);
    assert!(!reg.is_held(table(1)));
}

#[test]
fn id_is_its_number() {
    for n in [i64::MIN, -1, 0, 1, i64::MAX] {
        assert_eq!(LuauObjectRegistryID::from_i64(n).objid(), n);
        assert_eq!(LuauObjectRegistryID::from_i64(n), LuauObjectRegistryID::from_i64(n));
    }
    assert_ne!(LuauObjectRegistryID::from_i64(1), LuauObjectRegistryID::from_i64(-1));
}
