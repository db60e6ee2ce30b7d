use luaufusion::base::deno as copied;
use luaufusion::base::luau as plain;
use luaufusion::base::objects::ObjectRegistry;
use luaufusion::base::proxy_bridge;
use luaufusion::deno::bridge::{
    i32_to_v8_obj_registry_type, object_made, proxy_objreg_from_lua, proxy_to_v8, thrown_text,
    v8_obj_registry_type_to_i32, ClientAction, ExecOutcome, MakeOutcome, ObjectRegistryType,
    ProxiedLuaValue, ProxiedV8Value, ProxyLuaClient, ProxyV8Client, ReadOutcome, ScriptOutcome,
    SourceValue, V8Handle, V8IsolateManagerClient, V8IsolateManagerMessage, V8IsolateManagerServer, V8Made, V8Object,
    V8ObjectRegistryType, V8String,
};
use luaufusion::deno::manager;
use luaufusion::deno::manager::{
    eval_result, request_result, spiked_heap_limit, IsolateState, ManagerAction, PropertyOutcome,
    V8IsolateManagerThreadData,
};
use luaufusion::deno::ops::RunList;
use luaufusion::deno::tree;
use luaufusion::deno::tree::{FinalizerList, V8Tree};
use luaufusion::denobridge::jsvalue::JsValue;
use luaufusion::luau::value::Number;
use luaufusion::registry::{ObjectRef, RefKind};
use luaufusion::transport::concurrentlyexec::StartOutcome;

#[test]
fn v8_type_numbers_are_read_back() {
    let all = [
        V8ObjectRegistryType::ArrayBuffer,
        V8ObjectRegistryType::String,
        V8ObjectRegistryType::Object,
        V8ObjectRegistryType::Array,
        V8ObjectRegistryType::Function,
        V8ObjectRegistryType::Promise,
    ];
    for (i, typ) in all.iter().enumerate() {
        assert_eq!(v8_obj_registry_type_to_i32(*typ), i as i32);
        assert_eq!(i32_to_v8_obj_registry_type(i as i32), Some(*typ));
    }
    assert_eq!(i32_to_v8_obj_registry_type(6), None);
    assert_eq!(i32_to_v8_obj_registry_type(-1), None);
    assert_eq!(V8ObjectRegistryType::ArrayBuffer.typestr(), "ArrayBuffer");
}

#[test]
fn v8_object_is_disposed_of_once() {
    let mut obj = V8Object::new(3, V8ObjectRegistryType::Array);
    assert_eq!(obj.get().unwrap().id, 3);
    assert_eq!(
        obj.requestdispose(),
        Some(V8IsolateManagerMessage::DropObject {
            obj_type: V8ObjectRegistryType::Array,
            obj_id: 3
        })
    );
    assert_eq!(obj.requestdispose(), None);
    assert_eq!(obj.get(), Err("V8Object has already been dropped".to_string()));
    assert_eq!(V8String::new(4, 9).len, 9);
}

#[test]
fn v8_handles_are_registered_by_sort() {
    let mut client = ProxyV8Client::new(1);
    let s = V8Handle::String { handle: 1, length: 5 };
    let got = ProxiedV8Value::proxy_from_v8(s, &mut client, 0).unwrap();
    let id = match got {
        ProxiedV8Value::String((id, 5)) => id,
        _ => panic!("no string"),
    };
    assert_eq!(
        client.string_registry.get(id),
        Some(ObjectRef { kind: RefKind::String, handle: 1 })
    );
    let s = V8Handle::String { handle: 2, length: 5 };
    assert_eq!(
        ProxiedV8Value::proxy_from_v8(s, &mut client, 0),
        Err("Failed to register string: too many string references".to_string())
    );
    client.remove(V8ObjectRegistryType::String, id);
    assert_eq!(client.string_registry.get(id), None);
    assert_eq!(
        ProxiedV8Value::proxy_from_v8(V8Handle::Int32(4), &mut client, 0),
        Ok(ProxiedV8Value::Integer(4))
    );
    assert_eq!(
        ProxiedV8Value::proxy_from_v8(V8Handle::Other, &mut client, 0),
        Err("Unsupported V8 value type".to_string())
    );
}

#[test]
fn luau_object_in_v8_comes_back() {
    let made = proxy_objreg_from_lua(ObjectRegistryType::Table, 12, None);
    assert_eq!(
        made,
        V8Made::LuaObject { luatype: ObjectRegistryType::Table, luaid: 12, length: None }
    );
    assert_eq!(
        ProxiedV8Value::proxy_from_v8_get_proxied(Some(ObjectRegistryType::Table), Some(12)),
        Some(ProxiedV8Value::SrcTable(12))
    );
    assert_eq!(ProxiedV8Value::proxy_from_v8_get_proxied(None, Some(12)), None);
    let handle = V8Handle::Object {
        handle: 5,
        luatype: Some(ObjectRegistryType::Function),
        luaid: Some(2),
    };
    let mut client = ProxyV8Client::new(10);
    assert_eq!(
        ProxiedV8Value::proxy_from_v8(handle, &mut client, 0),
        Ok(ProxiedV8Value::SrcFunction(2))
    );
}

#[test]
fn luau_values_are_made_in_v8() {
    assert_eq!(proxy_to_v8(ProxiedLuaValue::Nil, 0), Ok(V8Made::Null));
    assert_eq!(proxy_to_v8(ProxiedLuaValue::Integer(7), 0), Ok(V8Made::Int32(7)));
    assert_eq!(
        object_made(MakeOutcome::NoInstance),
        Err("Failed to create V8 proxy object".to_string())
    );
    assert_eq!(object_made(MakeOutcome::Made(3)), Ok(3));
    assert_eq!(
        thrown_text("Failed to run script", Some("e".to_string())),
        "Failed to run script: e"
    );
}

#[test]
fn code_must_give_a_function() {
    assert_eq!(V8IsolateManagerClient::compile_code(ScriptOutcome::Function(4)), Ok(4));
    assert_eq!(
        V8IsolateManagerClient::compile_code(ScriptOutcome::NoFunction),
        Err("Script did not return a function".to_string())
    );
    assert_eq!(
        V8IsolateManagerClient::compile_code(ScriptOutcome::NotCompiled(Some("e".to_string()))),
        Err("Failed to compile script: e".to_string())
    );
}

#[test]
fn client_drops_objects_on_request() {
    let mut client = ProxyV8Client::new(10);
    let id = client.obj_registry.add(ObjectRef { kind: RefKind::Object, handle: 1 }).unwrap();
    let msg = V8IsolateManagerServer::request_drop_object(V8ObjectRegistryType::Object, id);
    assert_eq!(V8IsolateManagerClient::on_message(&mut client, msg), ClientAction::Done);
    assert_eq!(client.obj_registry.get(id), None);
    let msg = V8IsolateManagerServer::exec_code("c".to_string(), vec![ProxiedLuaValue::Nil]);
    assert_eq!(
        V8IsolateManagerClient::on_message(&mut client, msg),
        ClientAction::Execute { code: "c".to_string(), args: vec![V8Made::Null] }
    );
    assert_eq!(
        V8IsolateManagerClient::on_message(&mut client, V8IsolateManagerServer::shutdown()),
        ClientAction::Stop
    );
    assert_eq!(
        V8IsolateManagerClient::on_finished(&mut client, Err("e".to_string())),
        Err("JavaScript execution error: e".to_string())
    );
    assert_eq!(
        V8IsolateManagerServer::exec_result(ExecOutcome::NotSent("e".to_string())),
        Err("Failed to send code exec message: e".to_string())
    );
    assert_eq!(
        V8IsolateManagerServer::exec_result(ExecOutcome::NoAnswer("e".to_string())),
        Err("Failed to receive code exec response: e".to_string())
    );
}

#[test]
fn luau_tree_keeps_its_slots() {
    let mut held = FinalizerList::new();
    let v = plain::ProxiedLuaValue::Array(vec![
        plain::ProxiedLuaValue::Function(5),
        plain::ProxiedLuaValue::String(b"s".to_vec()),
        plain::ProxiedLuaValue::Buffer(6),
    ]);
    match tree::proxy_to_v8(&v, &mut held, 0).unwrap() {
        V8Tree::Array(items) => {
            match &items[0] {
                V8Tree::Lua { obj, slot } => {
                    assert_eq!(obj.typ, proxy_bridge::ObjectRegistryType::Function);
                    assert_eq!((obj.id, *slot), (5, 0));
                }
                _ => panic!("no object"),
            }
            assert_eq!(items[1], V8Tree::String("s".to_string()));
            match &items[2] {
                V8Tree::Lua { obj, slot } => assert_eq!((obj.id, *slot), (6, 1)),
                _ => panic!("no object"),
            }
        }
        _ => panic!("no array"),
    }
    assert!(held.contains(1));
    assert!(!held.contains(2));
    assert_eq!(
        held.finalized(0),
        Some(proxy_bridge::LuaProxyBridgeMessage::DropObject {
            obj_type: proxy_bridge::ObjectRegistryType::Function,
            obj_id: 5
        })
    );
    assert_eq!(held.finalized(2), None);
}

#[test]
fn luau_text_for_v8_must_be_utf8() {
    let mut held = FinalizerList::new();
    let bad = plain::ProxiedLuaValue::String(vec![0xff]);
    let e = tree::proxy_to_v8(&bad, &mut held, 0).unwrap_err();
    assert_eq!(
        e,
        format!(
            "Failed to convert string atom to UTF-8: {}",
            std::str::from_utf8(&[0xff]).unwrap_err()
        )
    );
}

#[test]
fn luau_references_in_v8_are_limited() {
    let mut held = FinalizerList::new();
    let many = (0..500).map(plain::ProxiedLuaValue::Thread).collect();
    assert!(tree::all_to_v8(&many, &mut held, 0).is_ok());
    let one = plain::ProxiedLuaValue::Thread(500);
    assert_eq!(
        tree::proxy_to_v8(&one, &mut held, 0),
        Err("Maximum number of thread references reached".to_string())
    );
    let one = plain::ProxiedLuaValue::Function(500);
    assert_eq!(
        tree::proxy_to_v8(&one, &mut held, 0),
        Err("Maximum number of function references reached".to_string())
    );
    assert_eq!(
        tree::proxy_to_v8(&plain::ProxiedLuaValue::Nil, &mut held, 11),
        Err("Maximum proxy depth exceeded".to_string())
    );
}

#[test]
fn bound_call_runs_and_gives_its_result() {
    let mut runs = RunList::new();
    let mut plc = copied::ProxyV8Client::new();
    let mut held = FinalizerList::new();
    let id = runs.luadispatch(&mut plc, 9, &vec![JsValue::Int32(2)]).unwrap();
    assert_eq!(runs.luarun(id), Ok((9, vec![copied::ProxiedV8Value::Integer(2)])));
    assert_eq!(runs.luarun(id), Err("Run ID not found".to_string()));
    let done = || Ok(vec![plain::ProxiedLuaValue::Boolean(true)]);
    assert_eq!(runs.luarun_done(id, done()), Ok(()));
    assert_eq!(runs.luaresult(&mut held, id), Ok(vec![V8Tree::Boolean(true)]));
    assert_eq!(runs.luaresult(&mut held, id), Err("Run ID not found".to_string()));
    assert_eq!(
        runs.luarun_done(id, Err("e".to_string())),
        Err("Function execution error: e".to_string())
    );
}

#[test]
fn run_in_the_wrong_state_is_lost() {
    let mut runs = RunList::new();
    let mut plc = copied::ProxyV8Client::new();
    let mut held = FinalizerList::new();
    let id = runs.luadispatch(&mut plc, 9, &vec![]).unwrap();
    assert_eq!(
        runs.luaresult(&mut held, id),
        Err("Function has not been executed yet".to_string())
    );
    assert_eq!(runs.luarun(id), Err("Run ID not found".to_string()));
    assert_eq!(runs.luarun_done(id, Ok(vec![])), Ok(()));
    assert_eq!(runs.luarun(id), Err("Run not in Created state".to_string()));
    assert_eq!(runs.luaresult(&mut held, id), Err("Run ID not found".to_string()));
}

#[test]
fn isolate_runs_while_a_call_is_under_way() {
    let mut state = IsolateState::new();
    assert!(!state.runs_event_loop());
    let (f, args) = state
        .on_compiled(ScriptOutcome::Function(3), &vec![plain::ProxiedLuaValue::Boolean(true)])
        .unwrap();
    assert_eq!((f, args), (3, vec![V8Tree::Boolean(true)]));
    assert!(state.runs_event_loop());
    assert_eq!(
        state.on_finished(Ok(JsValue::Int32(6))),
        Ok(copied::ProxiedV8Value::Integer(6))
    );
    assert!(!state.runs_event_loop());
    state.on_event_loop(Err("e".to_string()));
    assert_eq!(state.error, Some("e".to_string()));
    state.on_event_loop(Ok(()));
    assert_eq!(state.error, Some("e".to_string()));
}

#[test]
fn isolate_reads_properties_of_known_objects() {
    let mut state = IsolateState::new();
    let obj = ObjectRef { kind: RefKind::Object, handle: 4 };
    let id = state.proxy_client.obj_registry.add(obj).unwrap();
    let read = |obj_id| manager::V8IsolateManagerMessage::GetObjectProperty {
        obj_id,
        key: plain::ProxiedLuaValue::String(b"k".to_vec()),
    };
    assert_eq!(
        state.on_message(read(id)),
        ManagerAction::Read { obj, key: V8Tree::String("k".to_string()) }
    );
    assert_eq!(
        state.on_message(read(id + 1)),
        ManagerAction::Refuse("Object ID not found".to_string())
    );
    assert_eq!(
        state.on_message(manager::V8IsolateManagerMessage::Shutdown),
        ManagerAction::Stop
    );
    assert_eq!(
        state.on_property(PropertyOutcome::NotRead(Some("e".to_string()))),
        Err("Failed to get object property: e".to_string())
    );
    assert_eq!(
        state.on_property(PropertyOutcome::Value {
            value: JsValue::Number(Number::OfInt(1)),
            thrown: None
        }),
        Ok(copied::ProxiedV8Value::Number(Number::OfInt(1)))
    );
}

#[test]
fn isolate_limits_have_a_least_value() {
    let small = V8IsolateManagerThreadData { stack_size: 0, heap_limit: 0, id: "a".to_string() };
    let least = small.thread_stack_size();
    assert!(least > 0 && small.isolate_heap_limit() > 0);
    let large = V8IsolateManagerThreadData {
        stack_size: least + 1,
        heap_limit: small.isolate_heap_limit() + 1,
        id: "b".to_string(),
    };
    assert_eq!(large.thread_stack_size(), least + 1);
    assert_eq!(large.isolate_heap_limit(), small.isolate_heap_limit() + 1);
    assert_eq!(spiked_heap_limit(10), 50);
}

#[test]
fn isolate_requests_say_what_failed() {
    assert_eq!(request_result("X", true, Some(1)), Ok(1));
    assert_eq!(
        request_result::<u8>("X", true, None),
        Err("Failed to receive X response".to_string())
    );
    assert_eq!(
        eval_result(false, None),
        Err("Failed to send message to isolate manager".to_string())
    );
    assert_eq!(
        eval_result(true, None),
        Err("Failed to receive CodeExec response".to_string())
    );
}

#[test]
fn v8_values_reach_luau() {
    let mut plc = ProxyLuaClient {
        string_registry: ObjectRegistry::new(9),
        table_registry: ObjectRegistry::new(9),
        func_registry: ObjectRegistry::new(9),
        thread_registry: ObjectRegistry::new(9),
        buffer_registry: ObjectRegistry::new(9),
        userdata_registry: ObjectRegistry::new(9),
    };
    let obj = ObjectRef { kind: RefKind::Function, handle: 3 };
    let id = plc.func_registry.add(obj).unwrap();
    assert_eq!(
        ProxiedV8Value::SrcFunction(id).proxy_to_src_lua(&plc, 0),
        Ok(SourceValue::Object(obj))
    );
    assert_eq!(
        ProxiedV8Value::SrcTable(id).proxy_to_src_lua(&plc, 0),
        Err(format!("Table ID {id} not found in registry"))
    );
    assert_eq!(
        ProxiedV8Value::String((6, 40)).proxy_to_src_lua(&plc, 0),
        Ok(SourceValue::V8 { typ: V8ObjectRegistryType::String, id: 6, len: Some(40) })
    );
    assert_eq!(
        ProxiedV8Value::Undefined.proxy_to_src_lua(&plc, 10),
        Ok(SourceValue::Nil)
    );
    assert_eq!(
        ProxiedV8Value::Nil.proxy_to_src_lua(&plc, 11),
        Err("Maximum proxy depth exceeded".to_string())
    );
}

#[test]
fn worker_reads_properties_of_known_objects() {
    let mut client = ProxyV8Client::new(9);
    let object = V8Handle::Object { handle: 5, luatype: None, luaid: None };
    let got = ProxiedV8Value::proxy_from_v8(object, &mut client, 0).unwrap();
    let obj_id = match got {
        ProxiedV8Value::Object(id) => id,
        _ => panic!("no object"),
    };
    let ask = |obj_id| V8IsolateManagerMessage::GetObjectProperty {
        obj_id,
        key: ProxiedLuaValue::Integer(3),
    };
    assert_eq!(
        V8IsolateManagerClient::on_message(&mut client, ask(obj_id)),
        ClientAction::Read {
            obj: ObjectRef { kind: RefKind::Object, handle: 5 },
            key: V8Made::Int32(3),
        }
    );
    assert_eq!(
        V8IsolateManagerClient::on_message(&mut client, ask(obj_id + 1)),
        ClientAction::Refuse("Object ID not found".to_string())
    );
    let read = |value, thrown| ReadOutcome::Value { value, thrown };
    assert_eq!(
        V8IsolateManagerClient::on_property(&mut client, read(V8Handle::Boolean(true), None)),
        Ok(ProxiedV8Value::Boolean(true))
    );
    let thrown = Some("t".to_string());
    assert_eq!(
        V8IsolateManagerClient::on_property(&mut client, read(V8Handle::Other, thrown)),
        Err("Failed to convert object property to ProxiedV8Value: t (Unsupported V8 value type)"
            .to_string())
    );
    assert_eq!(
        V8IsolateManagerClient::on_property(&mut client, read(V8Handle::Other, None)),
        Err("Unsupported V8 value type".to_string())
    );
    assert_eq!(
        V8IsolateManagerClient::on_property(
            &mut client,
            ReadOutcome::NotRead(Some("t".to_string()))
        ),
        Err("Failed to get object property: t".to_string())
    );
}

#[test]
fn isolate_start_says_what_failed() {
    assert_eq!(V8IsolateManagerServer::started(StartOutcome::Started(3)), Ok(3));
    assert_eq!(
        V8IsolateManagerServer::started(StartOutcome::<u8>::NoExecutor("e".to_string())),
        Err("Failed to create V8 isolate manager executor: e".to_string())
    );
    assert_eq!(
        V8IsolateManagerServer::started(StartOutcome::<u8>::NoMessenger("e".to_string())),
        Err("Failed to receive messenger: e".to_string())
    );
}

#[test]
fn new_isolate_holds_nothing() {
    let state = IsolateState::new();
    for id in [0, 1] {
        assert_eq!(state.proxy_client.obj_registry.get(id), None);
        assert_eq!(state.proxy_client.func_registry.get(id), None);
        assert_eq!(state.proxy_client.promise_registry.get(id), None);
    }
    let mut runs = RunList::new();
    assert_eq!(runs.len(), 0);
    let mut client = state.proxy_client;
    runs.luadispatch(&mut client, 4, &vec![JsValue::Null]).unwrap();
    assert_eq!(runs.len(), 1);
}
