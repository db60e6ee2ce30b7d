use luaufusion::denobridge::bridge::V8ObjectRegistryType;
use luaufusion::denobridge::inner::CommonState;
use luaufusion::denobridge::jsvalue::JsValue;
use luaufusion::denobridge::objreg::{V8ObjectRegistry, V8ObjectRegistryID};
use luaufusion::denobridge::owned::owned_by_all;
use luaufusion::denobridge::primitives::ProxiedV8Primitive;
use luaufusion::denobridge::psuedoprimitive::ProxiedV8PsuedoPrimitive;
use luaufusion::denobridge::value::ProxiedV8Value;
use luaufusion::luau::bridge::{ObjectRegistryType, ProxyLuaClient};
use luaufusion::luau::embedder_api::{EmbedderData, EmbedderDataContext};
use luaufusion::luau::objreg::LuauObjectRegistryID;
use luaufusion::luau::value::{LuauValue, Metatable, Number, Payload, Single, Vector3};
use luaufusion::registry::{ObjectRef, RefKind};

fn ed(max: Option<usize>) -> EmbedderData {
    EmbedderData { heap_limit: 1 << 24, max_payload_size: max }
}

fn text(s: &str) -> LuauValue {
    LuauValue::String(s.as_bytes().to_vec())
}

fn number(x: f64) -> Number {
    Number::Bits(x.to_bits())
}

fn array(frozen: bool, items: Vec<LuauValue>) -> LuauValue {
    let len = items.len();
    let mut entries = Vec::new();
    for (i, v) in items.into_iter().enumerate() {
        entries.push((LuauValue::Integer(i as i64 + 1), v));
    }
    LuauValue::Table { handle: 11, frozen, metatable: Metatable::Array, len, entries }
}

fn map(frozen: bool, entries: Vec<(LuauValue, LuauValue)>) -> LuauValue {
    LuauValue::Table { handle: 12, frozen, metatable: Metatable::Absent, len: 0, entries }
}

fn whole(i: i32) -> ProxiedV8Value {
    ProxiedV8Value::Primitive(ProxiedV8Primitive::Integer(i))
}

fn string(s: &str) -> ProxiedV8Value {
    ProxiedV8Value::Primitive(ProxiedV8Primitive::String(s.to_string()))
}

fn sent(value: &LuauValue) -> Result<ProxiedV8Value, String> {
    let mut plc = ProxyLuaClient::new(ed(None));
    ProxiedV8Value::from_luau(&mut plc, value, &mut EmbedderDataContext::new(ed(None)))
}

fn in_v8(value: &ProxiedV8Value) -> Result<JsValue, String> {
    let state = CommonState::new(ed(None));
    value.to_v8(&state, &mut EmbedderDataContext::new(ed(None)))
}

#[test]
fn luau_primitives_become_primitives() {
    assert_eq!(sent(&LuauValue::Nil), Ok(ProxiedV8Value::Primitive(ProxiedV8Primitive::Nil)));
    assert_eq!(
        sent(&LuauValue::Boolean(true)),
        Ok(ProxiedV8Value::Primitive(ProxiedV8Primitive::Boolean(true)))
    );
    assert_eq!(sent(&LuauValue::Integer(2147483647)), Ok(whole(2147483647)));
    assert_eq!(
        sent(&LuauValue::Integer(2147483648)),
        Ok(ProxiedV8Value::Primitive(ProxiedV8Primitive::BigInt(2147483648)))
    );
    assert_eq!(
        sent(&LuauValue::Integer(-2147483649)),
        Ok(ProxiedV8Value::Primitive(ProxiedV8Primitive::BigInt(-2147483649)))
    );
    assert_eq!(
        sent(&LuauValue::LightUserData(5)),
        Ok(ProxiedV8Value::Primitive(ProxiedV8Primitive::BigInt(5)))
    );
    assert_eq!(sent(&text("h\u{e9}")), Ok(string("h\u{e9}")));
    assert_eq!(sent(&LuauValue::Other("x".to_string())), Ok(string("unknown(x)")));
}

#[test]
fn bytes_that_are_no_text_stay_bytes() {
    assert_eq!(
        sent(&LuauValue::String(vec![0xff, 0x61])),
        Ok(ProxiedV8Value::Psuedoprimitive(ProxiedV8PsuedoPrimitive::StringBytes(vec![
            0xff, 0x61
        ])))
    );
}

#[test]
fn luau_number_is_a_psuedoprimitive() {
    assert_eq!(
        sent(&LuauValue::Number(number(1.5))),
        Ok(ProxiedV8Value::Psuedoprimitive(ProxiedV8PsuedoPrimitive::Number(number(1.5))))
    );
}

#[test]
fn frozen_array_is_copied() {
    let got = sent(&array(true, vec![LuauValue::Integer(4), text("a")]));
    assert_eq!(
        got,
        Ok(ProxiedV8Value::Psuedoprimitive(ProxiedV8PsuedoPrimitive::StaticList(vec![
            whole(4),
            string("a")
        ])))
    );
}

#[test]
fn frozen_table_is_copied() {
    let got = sent(&map(true, vec![(text("k"), LuauValue::Integer(4))]));
    assert_eq!(
        got,
        Ok(ProxiedV8Value::Psuedoprimitive(ProxiedV8PsuedoPrimitive::StaticMap(vec![(
            string("k"),
            whole(4)
        )])))
    );
}

#[test]
fn key_of_a_copied_table_must_be_primitive() {
    let key = LuauValue::Number(number(0.5));
    let got = sent(&map(true, vec![(key, LuauValue::Nil)]));
    assert!(got.unwrap_err().ends_with("Only primitive values can be keys of a map"));
}

#[test]
fn table_that_is_not_frozen_is_referenced() {
    let mut plc = ProxyLuaClient::new(ed(None));
    let mut ctx = EmbedderDataContext::new(ed(None));
    let got = ProxiedV8Value::from_luau(&mut plc, &array(false, vec![LuauValue::Nil]), &mut ctx);
    let id = LuauObjectRegistryID::from_i64(1);
    assert_eq!(got, Ok(ProxiedV8Value::SourceOwnedObject((ObjectRegistryType::Table, id))));
    assert_eq!(plc.obj_registry.get(id), Ok(ObjectRef { kind: RefKind::Table, handle: 11 }));
    let again = map(false, vec![]);
    let other = ProxiedV8Value::from_luau(&mut plc, &again, &mut ctx);
    let id = LuauObjectRegistryID::from_i64(2);
    assert_eq!(other, Ok(ProxiedV8Value::SourceOwnedObject((ObjectRegistryType::Table, id))));
}

#[test]
fn reference_to_v8_goes_back_as_it_is() {
    let id = V8ObjectRegistryID::from_i64(3);
    let value = LuauValue::UserData {
        handle: 5,
        payload: Payload::V8Ref(V8ObjectRegistryType::Promise, id),
    };
    assert_eq!(
        sent(&value),
        Ok(ProxiedV8Value::V8OwnedObject((V8ObjectRegistryType::Promise, id)))
    );
    let held = LuauValue::UserData { handle: 5, payload: Payload::V8Transfer(string("t")) };
    assert_eq!(sent(&held), Ok(string("t")));
}

#[test]
fn error_value_is_not_sent() {
    assert_eq!(
        sent(&LuauValue::Error("boom".to_string())),
        Err("Cannot proxy Lua error value: boom".to_string())
    );
}

#[test]
fn nesting_stops_at_the_limit() {
    let mut v = array(true, vec![]);
    for _ in 0..9 {
        v = array(true, vec![v]);
    }
    assert!(sent(&v).is_ok());
    let deeper = array(true, vec![v]);
    assert!(sent(&deeper).unwrap_err().ends_with("Maximum proxy depth exceeded"));
}

#[test]
fn payload_limit_is_kept() {
    let mut plc = ProxyLuaClient::new(ed(Some(4)));
    let mut ctx = EmbedderDataContext::new(ed(Some(4)));
    assert!(ProxiedV8Value::from_luau(&mut plc, &text("abc"), &mut ctx).is_ok());
    assert_eq!(ctx.size, 4);
    let mut ctx = EmbedderDataContext::new(ed(Some(3)));
    let refused = ProxiedV8Value::from_luau(&mut plc, &text("abc"), &mut ctx);
    assert!(refused
        .unwrap_err()
        .ends_with("Payload size 4 exceeds maximum allowed size of 3 bytes"));
    assert_eq!(ctx.size, 0);
}

#[test]
fn proxied_primitives_in_luau_and_v8() {
    let p = ProxiedV8Primitive::Undefined;
    let mut ctx = EmbedderDataContext::new(ed(None));
    assert_eq!(p.to_luau(&mut ctx), Ok(LuauValue::Nil));
    assert_eq!(p.to_v8(&mut ctx), Ok(JsValue::Undefined));
    assert_eq!(ProxiedV8Primitive::Nil.to_v8(&mut ctx), Ok(JsValue::Null));
    assert_eq!(ProxiedV8Primitive::BigInt(7).to_luau(&mut ctx), Ok(LuauValue::Integer(7)));
    assert_eq!(ProxiedV8Primitive::BigInt(7).to_v8(&mut ctx), Ok(JsValue::BigInt(7)));
    assert_eq!(ProxiedV8Primitive::String("\u{e9}".to_string()).effective_size(), 2);
    assert_eq!(ProxiedV8Primitive::Boolean(true).effective_size(), 0);
}

#[test]
fn static_list_reaches_v8_as_an_array() {
    let p = ProxiedV8Value::Psuedoprimitive(ProxiedV8PsuedoPrimitive::StaticList(vec![
        whole(1),
        string("x"),
    ]));
    assert_eq!(
        in_v8(&p),
        Ok(JsValue::Array(vec![JsValue::Int32(1), JsValue::String("x".to_string())]))
    );
}

#[test]
fn three_numbers_from_v8_are_a_vector() {
    let mut state = CommonState::new(ed(None));
    let mut ctx = EmbedderDataContext::new(ed(None));
    let elems = vec![JsValue::Int32(1), JsValue::Number(number(2.5)), JsValue::Int32(3)];
    let got = ProxiedV8Value::from_v8(&JsValue::Array(elems), &mut state, &mut ctx);
    let v = Vector3 {
        x: Single::OfInt(1),
        y: Single::OfDouble(2.5f64.to_bits()),
        z: Single::OfInt(3),
    };
    assert_eq!(got, Ok(ProxiedV8Value::Psuedoprimitive(ProxiedV8PsuedoPrimitive::Vector(v))));
}

#[test]
fn wide_bigint_becomes_a_text() {
    let mut state = CommonState::new(ed(None));
    let mut ctx = EmbedderDataContext::new(ed(None));
    let wide = JsValue::WideBigInt("99999999999999999999".to_string());
    assert_eq!(
        ProxiedV8Value::from_v8(&wide, &mut state, &mut ctx),
        Ok(string("99999999999999999999"))
    );
}

#[test]
fn copied_values_come_back_from_luau() {
    let p = ProxiedV8Value::Psuedoprimitive(ProxiedV8PsuedoPrimitive::StaticMap(vec![(
        string("k"),
        ProxiedV8Value::Psuedoprimitive(ProxiedV8PsuedoPrimitive::StaticList(vec![
            whole(3),
            string("v"),
        ])),
    )]));
    let mut plc = ProxyLuaClient::new(ed(None));
    let mut ctx = EmbedderDataContext::new(ed(None));
    let luau = p.to_luau(&plc, &mut ctx).unwrap();
    let back = ProxiedV8Value::from_luau(&mut plc, &luau, &mut EmbedderDataContext::new(ed(None)));
    assert_eq!(back, Ok(p));
}

#[test]
fn copied_values_come_back_from_v8() {
    let p = ProxiedV8Value::Psuedoprimitive(ProxiedV8PsuedoPrimitive::StaticMap(vec![(
        string("k"),
        ProxiedV8Value::Psuedoprimitive(ProxiedV8PsuedoPrimitive::StringBytes(vec![1, 255])),
    )]));
    let mut state = CommonState::new(ed(None));
    let mut ctx = EmbedderDataContext::new(ed(None));
    let js = p.to_v8(&state, &mut ctx).unwrap();
    let back =
        ProxiedV8Value::from_v8(&js, &mut state, &mut EmbedderDataContext::new(ed(None)));
    assert_eq!(back, Ok(p));
}

#[test]
fn disposing_what_was_sent_empties_the_registry() {
    let mut plc = ProxyLuaClient::new(ed(None));
    let mut ctx = EmbedderDataContext::new(ed(None));
    let func = LuauValue::Ref(ObjectRef { kind: RefKind::Function, handle: 21 });
    let list = array(true, vec![func, array(false, vec![])]);
    let p = ProxiedV8Value::from_luau(&mut plc, &list, &mut ctx).unwrap();
    let (v8, luau) = p.get_owned_object_ids();
    assert!(v8.is_empty());
    assert_eq!(
        luau,
        vec![LuauObjectRegistryID::from_i64(1), LuauObjectRegistryID::from_i64(2)]
    );
    for id in luau {
        assert!(plc.obj_registry.get(id).is_ok());
        plc.obj_registry.drop(id);
        assert!(plc.obj_registry.get(id).is_err());
    }
}

#[test]
fn disposing_what_luau_got_empties_the_v8_registry() {
    let mut state = CommonState::new(ed(None));
    let mut ctx = EmbedderDataContext::new(ed(None));
    let obj = ObjectRef { kind: RefKind::Function, handle: 9 };
    let js = JsValue::Array(vec![JsValue::Ref(obj), JsValue::Null]);
    let p = ProxiedV8Value::from_v8(&js, &mut state, &mut ctx).unwrap();
    let (v8, luau) = owned_by_all(&vec![p]);
    assert!(luau.is_empty());
    assert_eq!(v8, vec![V8ObjectRegistryID::from_i64(1)]);
    assert_eq!(state.proxy_client.obj_registry.get(v8[0]), Some(obj));
    state.proxy_client.obj_registry.drop(v8[0]);
    assert_eq!(state.proxy_client.obj_registry.get(v8[0]), None);
}

#[test]
fn object_handed_out_twice_is_held_twice() {
    let mut reg = V8ObjectRegistry::new();
    let obj = ObjectRef { kind: RefKind::Promise, handle: 4 };
    let a = reg.add(obj).unwrap();
    let b = reg.add(obj).unwrap();
    assert_eq!(a, b);
    reg.drop(a);
    assert_eq!(reg.get(a), Some(obj));
    reg.drop(a);
    assert_eq!(reg.get(a), None);
}

#[test]
fn v8_object_reaches_v8_by_its_number() {
    let mut state = CommonState::new(ed(None));
    let obj = ObjectRef { kind: RefKind::ArrayBuffer, handle: 8 };
    let id = state.proxy_client.obj_registry.add(obj).unwrap();
    let mut ctx = EmbedderDataContext::new(ed(None));
    let held = ProxiedV8Value::V8OwnedObject((V8ObjectRegistryType::ArrayBuffer, id));
    assert_eq!(held.to_v8(&state, &mut ctx), Ok(JsValue::Ref(obj)));
    let gone = V8ObjectRegistryID::from_i64(77);
    let gone = ProxiedV8Value::V8OwnedObject((V8ObjectRegistryType::ArrayBuffer, gone));
    assert_eq!(gone.to_v8(&state, &mut ctx), Ok(JsValue::Undefined));
}

#[test]
fn luau_object_reaches_luau_by_its_number() {
    let mut plc = ProxyLuaClient::new(ed(None));
    let obj = ObjectRef { kind: RefKind::Thread, handle: 6 };
    let id = plc.obj_registry.add(obj).unwrap();
    let mut ctx = EmbedderDataContext::new(ed(None));
    let held = ProxiedV8Value::SourceOwnedObject((ObjectRegistryType::Thread, id));
    assert_eq!(held.to_luau(&plc, &mut ctx), Ok(LuauValue::Ref(obj)));
    let gone = LuauObjectRegistryID::from_i64(40);
    let gone = ProxiedV8Value::SourceOwnedObject((ObjectRegistryType::Thread, gone));
    assert_eq!(
        gone.to_luau(&plc, &mut ctx),
        Err("Failed to get object from registry: Object with ID 40 not found in registry"
            .to_string())
    );
}

#[test]
fn copy_of_a_value_equals_it() {
    let p = ProxiedV8Value::Psuedoprimitive(ProxiedV8PsuedoPrimitive::StaticMap(vec![(
        string("k"),
        whole(-1),
    )]));
    assert_eq!(p.duplicate(), p);
    assert!(!p.is_primitive());
    assert!(whole(1).is_primitive());
}

#[test]
fn map_comes_back_in_another_order() {
    let p = ProxiedV8Value::Psuedoprimitive(ProxiedV8PsuedoPrimitive::StaticMap(vec![
        (string("a"), whole(1)),
        (string("b"), string("z")),
    ]));
    let mut plc = ProxyLuaClient::new(ed(None));
    let mut ctx = EmbedderDataContext::new(ed(None));
    let swapped = match p.to_luau(&plc, &mut ctx).unwrap() {
        LuauValue::Table { handle, frozen, metatable, len, mut entries } => {
            entries.reverse();
            LuauValue::Table { handle, frozen, metatable, len, entries }
        }
        _ => panic!("no table"),
    };
    let mut ctx = EmbedderDataContext::new(ed(None));
    assert_eq!(
        ProxiedV8Value::from_luau(&mut plc, &swapped, &mut ctx),
        Ok(ProxiedV8Value::Psuedoprimitive(ProxiedV8PsuedoPrimitive::StaticMap(vec![
            (string("b"), string("z")),
            (string("a"), whole(1)),
        ])))
    );
}

#[test]
fn value_with_objects_arrives_and_comes_back() {
    let mut plc = ProxyLuaClient::new(ed(None));
    let obj = ObjectRef { kind: RefKind::Function, handle: 21 };
    let list = array(true, vec![LuauValue::Ref(obj), LuauValue::Boolean(false)]);
    let mut ctx = EmbedderDataContext::new(ed(None));
    let p = ProxiedV8Value::from_luau(&mut plc, &list, &mut ctx).unwrap();
    let home = p.to_luau(&plc, &mut EmbedderDataContext::new(ed(None))).unwrap();
    match &home {
        LuauValue::Table { entries, .. } => {
            assert_eq!(entries[0].1, LuauValue::Ref(obj));
            assert_eq!(entries[1].1, LuauValue::Boolean(false));
        }
        _ => panic!("no table"),
    }
    let mut ctx = EmbedderDataContext::new(ed(None));
    assert_eq!(ProxiedV8Value::from_luau(&mut plc, &home, &mut ctx), Ok(p));
}

#[test]
fn object_is_found_until_the_last_drop() {
    let mut reg = V8ObjectRegistry::new();
    let obj = ObjectRef { kind: RefKind::Object, handle: 4 };
    let other = ObjectRef { kind: RefKind::Object, handle: 5 };
    let id = reg.add(obj).unwrap();
    let second = reg.add(other).unwrap();
    for _ in 0..2 {
        assert_eq!(reg.add(obj), Ok(id));
    }
    for _ in 0..2 {
        reg.drop(id);
        assert_eq!(reg.get(id), Some(obj));
    }
    reg.drop(id);
    assert_eq!(reg.get(id), None);
    assert_eq!(reg.get(second), Some(other));
    assert_eq!(i64::from(second), second.objid());
}

#[test]
fn v8_object_handed_to_luau_and_back_is_itself() {
    let mut state = CommonState::new(ed(None));
    for handle in [3, 8, 3] {
        let v = JsValue::Ref(ObjectRef { kind: RefKind::Promise, handle });
        let mut ctx = EmbedderDataContext::new(ed(None));
        let p = ProxiedV8Value::from_v8(&v, &mut state, &mut ctx).unwrap();
        let back = p.to_v8(&state, &mut EmbedderDataContext::new(ed(None)));
        assert_eq!(back, Ok(v));
    }
}
