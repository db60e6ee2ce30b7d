use luaufusion::denobridge::bridge::V8ObjectRegistryType;
use luaufusion::denobridge::bridgeops::{ArgBuffer, LuaObject, LuauObjectOp, RefIdDropGuard};
use luaufusion::denobridge::client::{module_url, on_event, ClientEvent, ClientStep};
use luaufusion::denobridge::embedder_api::{
    json_raw_to_proxied_v8, json_to_proxied_v8, JsonNumber, JsonValue,
};
use luaufusion::denobridge::event::EventBridge;
use luaufusion::denobridge::inner::CommonState;
use luaufusion::denobridge::jsvalue::JsValue;
use luaufusion::denobridge::luauobjs::{V8ObjectOp, V8Value};
use luaufusion::denobridge::modloader::{FusionModuleLoader, ModuleType};
use luaufusion::denobridge::objreg::V8ObjectRegistryID;
use luaufusion::denobridge::primitives::ProxiedV8Primitive;
use luaufusion::denobridge::psuedoprimitive::ProxiedV8PsuedoPrimitive;
use luaufusion::denobridge::value::ProxiedV8Value;
use luaufusion::base::message::{ClientMessage, ServerMessage};
use luaufusion::luau::bridge::{ObjectRegistryType, ProxyLuaClient};
use luaufusion::luau::embedder_api::EmbedderData;
use luaufusion::luau::objreg::LuauObjectRegistryID;
use luaufusion::luau::value::{LuauValue, Number};

fn ed(max: Option<usize>) -> EmbedderData {
    EmbedderData { heap_limit: 1 << 24, max_payload_size: max }
}

fn whole(i: i32) -> ProxiedV8Value {
    ProxiedV8Value::Primitive(ProxiedV8Primitive::Integer(i))
}

fn string(s: &str) -> ProxiedV8Value {
    ProxiedV8Value::Primitive(ProxiedV8Primitive::String(s.to_string()))
}

fn float(x: f64) -> ProxiedV8Value {
    ProxiedV8Value::Psuedoprimitive(ProxiedV8PsuedoPrimitive::Number(Number::Bits(x.to_bits())))
}

fn consumed<T>(r: Result<T, String>) {
    assert_eq!(r.err(), Some("ArgBuffer already consumed".to_string()));
}

#[test]
fn buffer_keeps_the_order_of_its_values() {
    let mut state = CommonState::new(ed(None));
    let mut buf = ArgBuffer::constructor(&mut state, &vec![JsValue::Int32(1)]).unwrap();
    buf.push(&mut state, &vec![JsValue::Int32(2), JsValue::Int32(3)]).unwrap();
    assert_eq!(buf.size(), Ok(3));
    assert_eq!(buf.size_bigint(), Ok(3));
    assert_eq!(buf.pop(&state), Ok(JsValue::Int32(3)));
    assert_eq!(buf.take(&state), Ok(vec![JsValue::Int32(1), JsValue::Int32(2)]));
    consumed(buf.take(&state));
}

#[test]
fn empty_buffer_gives_undefined() {
    let state = CommonState::new(ed(None));
    let mut buf = ArgBuffer::new(vec![]);
    assert_eq!(buf.pop(&state), Ok(JsValue::Undefined));
}

#[test]
fn extract_flattens_one_value() {
    let state = CommonState::new(ed(None));
    assert_eq!(ArgBuffer::new(vec![]).extract(&state), Ok(JsValue::Undefined));
    assert_eq!(ArgBuffer::new(vec![whole(4)]).extract(&state), Ok(JsValue::Int32(4)));
    assert_eq!(
        ArgBuffer::new(vec![whole(4), whole(5)]).extract(&state),
        Ok(JsValue::Array(vec![JsValue::Int32(4), JsValue::Int32(5)]))
    );
}

#[test]
fn consumed_buffer_takes_values_again_only_by_replacement() {
    let mut state = CommonState::new(ed(None));
    let mut buf = ArgBuffer::new(vec![whole(1)]);
    assert_eq!(buf.replace(vec![]), Err("ArgBuffer already initialized".to_string()));
    assert_eq!(buf.consume(), Ok(vec![whole(1)]));
    consumed(buf.consume());
    consumed(buf.push(&mut state, &vec![JsValue::Null]));
    consumed(buf.pop(&state));
    consumed(buf.size());
    assert_eq!(buf.take_out(), None);
    assert_eq!(buf.replace(vec![whole(2)]), Ok(()));
    assert_eq!(buf.take_out(), Some(vec![whole(2)]));
}

#[test]
fn guard_holds_what_the_arguments_own() {
    let v8 = V8ObjectRegistryID::from_i64(3);
    let luau = LuauObjectRegistryID::from_i64(8);
    let args = vec![
        ProxiedV8Value::V8OwnedObject((V8ObjectRegistryType::Object, v8)),
        ProxiedV8Value::SourceOwnedObject((ObjectRegistryType::Table, luau)),
    ];
    assert_eq!(
        RefIdDropGuard::from_args(&args, true),
        RefIdDropGuard { v8_refs: Some(vec![v8]), lua_refs: Some(vec![luau]) }
    );
    assert_eq!(
        RefIdDropGuard::from_args(&args, false),
        RefIdDropGuard { v8_refs: None, lua_refs: Some(vec![luau]) }
    );
    assert_eq!(
        RefIdDropGuard::from_args(&vec![], true),
        RefIdDropGuard { v8_refs: None, lua_refs: None }
    );
}

#[test]
fn dropped_buffer_disposes_of_what_it_holds() {
    let luau = LuauObjectRegistryID::from_i64(8);
    let own = || ProxiedV8Value::SourceOwnedObject((ObjectRegistryType::Table, luau));
    let mut buf = ArgBuffer::new(vec![own()]);
    let guard = buf.on_drop(true).unwrap();
    assert_eq!(guard.lua_refs, Some(vec![luau]));
    assert_eq!(buf.on_drop(true), None);
}

#[test]
fn index_takes_one_argument() {
    let mut buf = ArgBuffer::new(vec![whole(1), whole(2)]);
    let call = LuaObject::opcall_impl(&mut buf, LuauObjectOp::Index, true).unwrap();
    assert_eq!(
        call.args,
        Err("Indexing a object requires exactly/only 1 argument, got 2".to_string())
    );
    let mut buf = ArgBuffer::new(vec![string("k")]);
    let call = LuaObject::opcall_impl(&mut buf, LuauObjectOp::Index, true).unwrap();
    assert_eq!(call.args, Ok(vec![string("k")]));
    assert_eq!(LuaObject::opcall_done(&mut buf, Ok(vec![whole(9)])), Ok(()));
    assert_eq!(buf.consume(), Ok(vec![whole(9)]));
    assert_eq!(
        LuaObject::opcall_done(&mut buf, Err("gone".to_string())),
        Err("Bridge call failed: gone".to_string())
    );
}

#[test]
fn luau_object_in_v8_knows_its_number() {
    let obj = LuaObject {
        lua_type: ObjectRegistryType::Function,
        lua_id: LuauObjectRegistryID::from_i64(12),
    };
    assert_eq!(obj.get_lua_id(), 12);
    assert_eq!(obj.get_lua_type(), "function");
    assert_eq!(obj.on_drop(), LuauObjectRegistryID::from_i64(12));
}

#[test]
fn client_passes_messages_on() {
    assert_eq!(module_url("main.js"), "file:///main.js");
    let msg = ServerMessage::SendText { msg: "a".to_string() };
    assert_eq!(on_event(ClientEvent::FromHost(Ok(msg))), ClientStep::Text("a".to_string()));
    let msg = ServerMessage::SendBinary { msg: vec![7] };
    assert_eq!(on_event(ClientEvent::FromHost(Ok(msg))), ClientStep::Binary(vec![7]));
    let msg = ClientMessage::SendText { msg: "b".to_string() };
    assert_eq!(
        on_event(ClientEvent::FromModule(msg)),
        ClientStep::Send(ClientMessage::SendText { msg: "b".to_string() })
    );
    assert_eq!(on_event(ClientEvent::Cancelled), ClientStep::Stop(None));
    assert_eq!(
        on_event(ClientEvent::Evaluated(Err("x".to_string()))),
        ClientStep::Stop(Some("Error evaluating module in V8 isolate manager: x".to_string()))
    );
}

#[test]
fn event_bridge_keeps_the_payload_limit() {
    let bridge = EventBridge::new(ed(Some(2)));
    assert_eq!(
        bridge.send_text("ab".to_string()),
        Ok(ClientMessage::SendText { msg: "ab".to_string() })
    );
    assert_eq!(
        bridge.send_text("abc".to_string()),
        Err("Payload size 3 exceeds maximum allowed size of 2 bytes".to_string())
    );
    assert_eq!(bridge.send_binary(&[1]), Ok(ClientMessage::SendBinary { msg: vec![1] }));
    assert_eq!(
        bridge.send_binary(&[1, 2, 3]),
        Err("Payload size 3 exceeds maximum allowed size of 2 bytes".to_string())
    );
    assert_eq!(
        EventBridge::sent(Err("shut".to_string())),
        Err("Failed to send text message: shut".to_string())
    );
    assert_eq!(
        EventBridge::receive_text(None),
        Err("Text message channel is already locked".to_string())
    );
    assert_eq!(
        EventBridge::receive_binary(None),
        Err("Binary message channel is already locked".to_string())
    );
    assert_eq!(EventBridge::receive_text(Some(None)), Ok(None));
    assert_eq!(EventBridge::receive_binary(Some(Some(vec![1]))), Ok(Some(vec![1])));
}

#[test]
fn property_call_takes_a_primitive() {
    let plc = ProxyLuaClient::new(ed(None));
    let obj = V8Value::new(V8ObjectRegistryID::from_i64(2), V8ObjectRegistryType::Object);
    assert_eq!(obj.typename(), "V8Object");
    let key = LuauValue::String(b"k".to_vec());
    let msg = obj.op_call_primitive(&plc, V8ObjectOp::ObjectGetProperty, &key).unwrap();
    assert_eq!(msg.obj_id, V8ObjectRegistryID::from_i64(2));
    assert_eq!(msg.op, V8ObjectOp::ObjectGetProperty);
    assert_eq!(msg.args, vec![string("k")]);
    let key = LuauValue::Number(Number::OfInt(1));
    assert_eq!(
        obj.op_call_primitive(&plc, V8ObjectOp::ObjectGetProperty, &key),
        Err("Argument is not a primitive value".to_string())
    );
}

#[test]
fn call_converts_all_arguments() {
    let mut plc = ProxyLuaClient::new(ed(None));
    let obj = V8Value::new(V8ObjectRegistryID::from_i64(2), V8ObjectRegistryType::Function);
    let args = vec![LuauValue::Integer(1), LuauValue::Boolean(false)];
    let msg = obj.op_call(&mut plc, V8ObjectOp::FunctionCall, &args).unwrap();
    assert_eq!(
        msg.args,
        vec![whole(1), ProxiedV8Value::Primitive(ProxiedV8Primitive::Boolean(false))]
    );
    let args = vec![LuauValue::Error("e".to_string())];
    assert_eq!(
        obj.op_call(&mut plc, V8ObjectOp::FunctionCall, &args),
        Err("Failed to proxy argument to ProxiedV8Value: Cannot proxy Lua error value: e"
            .to_string())
    );
    assert_eq!(
        V8Value::op_returned(&plc, Ok(vec![whole(3)])),
        Ok(vec![LuauValue::Integer(3)])
    );
}

#[test]
fn property_has_one_value() {
    assert_eq!(V8Value::single("", Ok(vec![LuauValue::Integer(3)])), Ok(LuauValue::Integer(3)));
    assert_eq!(
        V8Value::single("", Ok(vec![])),
        Err("Expected 1 return value from GetProperty, got 0".to_string())
    );
}

#[test]
fn module_is_found_by_its_path() {
    let loader = FusionModuleLoader::new(vec![
        ("a/b.js".to_string(), "one".to_string()),
        ("c.json".to_string(), "{}".to_string()),
    ]);
    let path = vec!["a".to_string(), "b.js".to_string()];
    assert_eq!(loader.load(&path, false), Ok((ModuleType::JavaScript, "one".to_string())));
    let path = vec!["c.json".to_string()];
    assert_eq!(loader.load(&path, true), Ok((ModuleType::Json, "{}".to_string())));
    let path = vec!["d.js".to_string()];
    assert_eq!(loader.load(&path, false), Err("Module not found".to_string()));
}

#[test]
fn json_text_becomes_a_value() {
    let got = json_raw_to_proxied_v8("{\"a\": [1, 3000000000, 1.5, null, true, \"x\"]}", 0);
    let list = vec![
        whole(1),
        ProxiedV8Value::Primitive(ProxiedV8Primitive::BigInt(3000000000)),
        float(1.5),
        ProxiedV8Value::Primitive(ProxiedV8Primitive::Nil),
        ProxiedV8Value::Primitive(ProxiedV8Primitive::Boolean(true)),
        string("x"),
    ];
    assert_eq!(
        got,
        Ok(ProxiedV8Value::Psuedoprimitive(ProxiedV8PsuedoPrimitive::StaticMap(vec![(
            string("a"),
            ProxiedV8Value::Psuedoprimitive(ProxiedV8PsuedoPrimitive::StaticList(list))
        )])))
    );
}

#[test]
fn text_that_is_no_json_is_refused() {
    let e = json_raw_to_proxied_v8("{", 0).unwrap_err();
    assert!(e.starts_with("Failed to parse JsonRawValue: "));
    assert!(e.len() > "Failed to parse JsonRawValue: ".len());
}

#[test]
fn json_that_is_too_deep_is_refused() {
    let text = "Maximum proxy depth exceeded when converting JSON to ProxiedV8Value";
    assert_eq!(json_raw_to_proxied_v8("1", 10), Err(text.to_string()));
    assert_eq!(json_raw_to_proxied_v8("1", 9), Ok(whole(1)));
    assert_eq!(json_raw_to_proxied_v8("[1]", 9), Err(text.to_string()));
    assert_eq!(json_to_proxied_v8(JsonValue::Null, 10), Err(text.to_string()));
}

#[test]
fn json_number_of_neither_sort_is_refused() {
    let n = JsonNumber { int: None, float: None };
    assert_eq!(
        json_to_proxied_v8(JsonValue::Number(n), 0),
        Err("JSON number is neither integer nor float".to_string())
    );
}

#[test]
fn v8_object_says_what_failed() {
    assert_eq!(V8Value::call(Ok(vec![LuauValue::Integer(3)])), Ok(LuauValue::Integer(3)));
    assert_eq!(
        V8Value::call(Err("e".to_string())),
        Err("Failed to perform function call: e".to_string())
    );
    assert_eq!(V8Value::getproperty(Ok(vec![LuauValue::Nil])), Ok(LuauValue::Nil));
    assert_eq!(
        V8Value::getproperty(Err("e".to_string())),
        Err("Failed to get property: e".to_string())
    );
    assert_eq!(V8Value::requestdispose(Ok(vec![])), Ok(()));
    assert_eq!(
        V8Value::requestdispose(Err("e".to_string())),
        Err("Failed to request dispose: e".to_string())
    );
}
