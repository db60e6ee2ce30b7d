use luaufusion::luau::bridge::{ObjectRegistryType, ProxyLuaClient};
use luaufusion::luau::embedder_api::{EmbedderData, EmbedderDataContext};
use luaufusion::luau::objreg::LuauObjectRegistryID;
use luaufusion::luau::value::{LuauValue, Metatable, Number, Payload};
use luaufusion::parallelluau::client::{
    from_string, send_result, send_timeout_result, shutdown_outcome, started, CallEnd,
    CallFunctionChildMessage, ChildAction, CodeExecMessage, FileAction, FunctionCache,
    GetPropertyMessage, LoadOutcome, ParallelLuaClient, ParallelLuaMessage, RequestDisposeMessage,
    ShutdownMessage, Waited,
};
use luaufusion::parallelluau::foreignref::{ForeignLuauValue, ForeignRef};
use luaufusion::parallelluau::objreg::PLuauObjectRegistryID;
use luaufusion::parallelluau::primitives::ProxiedLuauPrimitive;
use luaufusion::parallelluau::psuedoprimitive::ProxiedLuauPsuedoPrimitive;
use luaufusion::parallelluau::state::ProxyPLuaClient;
use luaufusion::parallelluau::value::ProxiedLuauValue;
use luaufusion::registry::{ObjectRef, RefKind};
use luaufusion::transport::concurrentlyexec::StartOutcome;

fn ed() -> EmbedderData {
    EmbedderData { heap_limit: 0, max_payload_size: None }
}

fn ctx() -> EmbedderDataContext {
    EmbedderDataContext::new(ed())
}

fn text(s: &str) -> LuauValue {
    LuauValue::String(s.as_bytes().to_vec())
}

fn integer(i: i64) -> ProxiedLuauValue {
    ProxiedLuauValue::Primitive(ProxiedLuauPrimitive::Integer(i))
}

fn string(s: &str) -> ProxiedLuauValue {
    ProxiedLuauValue::Primitive(ProxiedLuauPrimitive::String(s.to_string()))
}

fn object(kind: RefKind, handle: u64) -> ObjectRef {
    ObjectRef { kind, handle }
}

#[test]
fn copied_value_arrives_in_the_other_state() {
    let mut host = ProxyLuaClient::new(ed());
    let child = ProxyPLuaClient::new(ed());
    let entries = vec![(
        text("k"),
        LuauValue::Table {
            handle: 2,
            frozen: false,
            metatable: Metatable::Array,
            len: 1,
            entries: vec![(LuauValue::Integer(1), LuauValue::Number(Number::OfInt(9)))],
        },
    )];
    let value = LuauValue::Table {
        handle: 1,
        frozen: true,
        metatable: Metatable::Absent,
        len: 0,
        entries,
    };
    let p = ProxiedLuauValue::from_luau_host(&mut host, &value, &mut ctx()).unwrap();
    let list = ProxiedLuauPsuedoPrimitive::StaticList(vec![ProxiedLuauValue::Psuedoprimitive(
        ProxiedLuauPsuedoPrimitive::Number(Number::OfInt(9)),
    )]);
    assert_eq!(
        p,
        ProxiedLuauValue::Psuedoprimitive(ProxiedLuauPsuedoPrimitive::StaticMap(vec![(
            string("k"),
            ProxiedLuauValue::Psuedoprimitive(list)
        )]))
    );
    match p.to_luau_child(&child, &mut ctx()).unwrap() {
        LuauValue::Table { frozen, metatable, entries, .. } => {
            assert!(!frozen);
            assert_eq!(metatable, Metatable::Absent);
            assert_eq!(entries[0].0, text("k"));
        }
        _ => panic!("no table"),
    }
}

#[test]
fn table_with_a_metatable_is_referenced() {
    let mut host = ProxyLuaClient::new(ed());
    let value = LuauValue::Table {
        handle: 4,
        frozen: true,
        metatable: Metatable::Other,
        len: 0,
        entries: vec![],
    };
    assert_eq!(
        ProxiedLuauValue::from_luau_host(&mut host, &value, &mut ctx()),
        Ok(ProxiedLuauValue::SourceOwnedObject((
            ObjectRegistryType::Table,
            LuauObjectRegistryID::from_i64(1)
        )))
    );
}

#[test]
fn object_comes_home() {
    let mut host = ProxyLuaClient::new(ed());
    let mut child = ProxyPLuaClient::new(ed());
    let func = LuauValue::Ref(object(RefKind::Function, 8));
    let p = ProxiedLuauValue::from_luau_host(&mut host, &func, &mut ctx()).unwrap();
    let there = p.to_luau_child(&child, &mut ctx()).unwrap();
    match &there {
        LuauValue::UserData { payload: Payload::HostRef(typ, id), .. } => {
            assert_eq!(*typ, ObjectRegistryType::Function);
            assert_eq!(*id, LuauObjectRegistryID::from_i64(1));
        }
        _ => panic!("no reference"),
    }
    let back = ProxiedLuauValue::from_luau_child(&mut child, &there, &mut ctx()).unwrap();
    assert_eq!(back, p);
    assert_eq!(back.to_luau_host(&host, &mut ctx()), Ok(func));
}

#[test]
fn null_pointer_is_null() {
    let mut host = ProxyLuaClient::new(ed());
    let p = ProxiedLuauValue::from_luau_host(&mut host, &LuauValue::LightUserData(0), &mut ctx());
    assert_eq!(p, Ok(ProxiedLuauValue::Primitive(ProxiedLuauPrimitive::Null)));
    assert_eq!(
        p.unwrap().to_luau_host(&host, &mut ctx()),
        Ok(LuauValue::LightUserData(0))
    );
}

#[test]
fn child_refuses_a_message_of_another_version() {
    let mut child = ProxyPLuaClient::new(ed());
    let msg = ParallelLuaMessage::CodeExec { filename: "f".to_string(), magic: 1 };
    assert_eq!(
        ParallelLuaClient::on_message(&mut child, msg),
        ChildAction::Refuse(
            "Invalid magic number in CodeExec message; are you sure you're running a parallel luau child process?"
                .to_string()
        )
    );
    let msg = CodeExecMessage { filename: "f".to_string() }.to_message();
    assert_eq!(
        ParallelLuaClient::on_message(&mut child, msg),
        ChildAction::FindFile("f".to_string())
    );
}

#[test]
fn child_indexes_tables_and_calls_functions() {
    let mut child = ProxyPLuaClient::new(ed());
    let t = child.obj_registry.add(object(RefKind::Table, 1)).unwrap();
    let f = child.obj_registry.add(object(RefKind::Function, 2)).unwrap();
    let msg = GetPropertyMessage { obj_id: t, property: string("k") }.to_message();
    match ParallelLuaClient::on_message(&mut child, msg) {
        ChildAction::Index { table, key, .. } => {
            assert_eq!(table, object(RefKind::Table, 1));
            assert_eq!(key, text("k"));
        }
        _ => panic!("no index"),
    }
    let msg = GetPropertyMessage { obj_id: f, property: string("k") }.to_message();
    assert_eq!(
        ParallelLuaClient::on_message(&mut child, msg),
        ChildAction::Refuse("Object is not a table".to_string())
    );
    let msg = CallFunctionChildMessage { obj_id: f, args: vec![integer(3)] }.to_message();
    match ParallelLuaClient::on_message(&mut child, msg) {
        ChildAction::Call { func, args, .. } => {
            assert_eq!(func, object(RefKind::Function, 2));
            assert_eq!(args, vec![LuauValue::Integer(3)]);
        }
        _ => panic!("no call"),
    }
    let msg = CallFunctionChildMessage { obj_id: t, args: vec![] }.to_message();
    assert_eq!(
        ParallelLuaClient::on_message(&mut child, msg),
        ChildAction::Refuse("Object is not a function".to_string())
    );
    let msg = RequestDisposeMessage { obj_id: f }.to_message();
    assert_eq!(ParallelLuaClient::on_message(&mut child, msg), ChildAction::Disposed);
    let msg = CallFunctionChildMessage { obj_id: f, args: vec![] }.to_message();
    assert_eq!(
        ParallelLuaClient::on_message(&mut child, msg),
        ChildAction::Refuse(
            "Failed to get object for CallFunctionChild: Object with ID 2 not found in registry"
                .to_string()
        )
    );
    assert_eq!(
        ParallelLuaClient::on_message(&mut child, ShutdownMessage.to_message()),
        ChildAction::Stop
    );
}

#[test]
fn loaded_file_is_not_loaded_again() {
    let mut cache = FunctionCache::new();
    let name = "f.luau".to_string();
    assert_eq!(ParallelLuaClient::on_file(&cache, &name, Ok(())), FileAction::Load);
    let f = object(RefKind::Function, 3);
    let r = ParallelLuaClient::on_loaded(&mut cache, name.clone(), LoadOutcome::Loaded(f));
    assert_eq!(r, Ok(f));
    assert_eq!(ParallelLuaClient::on_file(&cache, &name, Ok(())), FileAction::Call(f));
    assert_eq!(
        ParallelLuaClient::on_file(&cache, &name, Err("gone".to_string())),
        FileAction::Refuse("Failed to get file from VFS: gone".to_string())
    );
    assert_eq!(
        ParallelLuaClient::on_loaded(
            &mut cache,
            "g".to_string(),
            LoadOutcome::NotCompiled("e".to_string())
        ),
        Err("Failed to compile Luau code: e".to_string())
    );
    assert_eq!(
        ParallelLuaClient::on_loaded(
            &mut cache,
            "g".to_string(),
            LoadOutcome::NotLoaded("e".to_string())
        ),
        Err("Failed to load function from bytecode: e".to_string())
    );
    assert_eq!(cache.get(&"g".to_string()), None);
}

#[test]
fn call_ends_are_told() {
    let mut child = ProxyPLuaClient::new(ed());
    let end = |child: &mut ProxyPLuaClient, e| ParallelLuaClient::on_returned(child, ctx(), e);
    assert_eq!(
        end(&mut child, CallEnd::Returned(vec![LuauValue::Integer(1), text("a")])),
        Ok(vec![integer(1), string("a")])
    );
    assert_eq!(
        end(&mut child, CallEnd::Yielded),
        Err("Function yielded unexpectedly".to_string())
    );
    assert_eq!(
        end(&mut child, CallEnd::NoThread("e".to_string())),
        Err("Failed to create thread for function call: e".to_string())
    );
    assert_eq!(
        end(&mut child, CallEnd::Failed("e".to_string())),
        Err("Function call failed: e".to_string())
    );
    assert_eq!(
        end(&mut child, CallEnd::Raised("e".to_string())),
        Err("Function call error: e".to_string())
    );
    assert_eq!(
        ParallelLuaClient::on_property(&mut child, ctx(), Err("e".to_string())),
        Err("Failed to get property from Lua table: e".to_string())
    );
    assert_eq!(
        ParallelLuaClient::on_property(&mut child, ctx(), Ok(LuauValue::Integer(2))),
        Ok(integer(2))
    );
}

#[test]
fn child_heap_is_not_too_small() {
    assert_eq!(ParallelLuaClient::heap_limit(&ed()), 5 * 1024 * 1024);
    let large = EmbedderData { heap_limit: 1 << 30, max_payload_size: None };
    assert_eq!(ParallelLuaClient::heap_limit(&large), 1 << 30);
}

#[test]
fn reference_to_the_child_makes_its_messages() {
    let mut host = ProxyLuaClient::new(ed());
    let id = PLuauObjectRegistryID::from_i64(5);
    let r = ForeignRef { id, typ: ObjectRegistryType::Function };
    assert_eq!(r.objid(), 5);
    assert_eq!(r.objtype(), "function");
    assert_eq!(r.request_dispose(), RequestDisposeMessage { obj_id: id });
    assert_eq!(
        r.get_property(&mut host, &text("k")),
        Ok(GetPropertyMessage { obj_id: id, property: string("k") })
    );
    assert_eq!(
        r.function_call(&mut host, &vec![LuauValue::Integer(1)]),
        Ok(CallFunctionChildMessage { obj_id: id, args: vec![integer(1)] })
    );
    assert_eq!(
        ForeignRef::got_property(&host, Ok(integer(4))),
        Ok(LuauValue::Integer(4))
    );
    assert_eq!(
        ForeignRef::function_returned(&host, Ok(vec![integer(4), string("s")])),
        Ok(vec![LuauValue::Integer(4), text("s")])
    );
    let bad = LuauValue::Error("e".to_string());
    assert_eq!(
        r.get_property(&mut host, &bad),
        Err("Failed to proxy argument to ProxiedValue: Cannot proxy Lua error value: e"
            .to_string())
    );
}

#[test]
fn reference_to_the_host_converts_its_arguments() {
    let mut child = ProxyPLuaClient::new(ed());
    assert_eq!(
        ForeignLuauValue::callasync(&mut child, &vec![LuauValue::Boolean(true)]),
        Ok(vec![ProxiedLuauValue::Primitive(ProxiedLuauPrimitive::Boolean(true))])
    );
    assert_eq!(
        ForeignLuauValue::returned(&child, Err("e".to_string())),
        Err("Bridge call failed: e".to_string())
    );
    assert_eq!(
        ForeignLuauValue::returned(&child, Ok(vec![integer(1)])),
        Ok(vec![LuauValue::Integer(1)])
    );
}

#[test]
fn requests_to_the_child_say_what_failed() {
    assert_eq!(send_result(Ok(()), Ok(1), false), Ok(1));
    assert_eq!(
        send_result(Ok(()), Ok(1), true),
        Err("Parallel luau is shut down (likely due to timeout)".to_string())
    );
    assert_eq!(
        send_result::<u8>(Err("x".to_string()), Ok(1), false),
        Err("Failed to send message to parallel luau: x".to_string())
    );
    assert_eq!(
        send_result::<u8>(Ok(()), Err("x".to_string()), false),
        Err("Failed to receive response from parallel luau: x".to_string())
    );
    assert_eq!(send_timeout_result(Ok(()), Waited::Answer(2), false), Ok(2));
    assert_eq!(
        send_timeout_result(Ok(()), Waited::Answer(2), true),
        Err("parallel luau is shut down (likely due to timeout)".to_string())
    );
    assert_eq!(
        send_timeout_result::<u8>(Ok(()), Waited::TimedOut("t".to_string()), false),
        Err("Timeout waiting for response from parallel luau: t".to_string())
    );
    assert_eq!(shutdown_outcome(Waited::Answer(()), Waited::Answer(())), Ok(()));
    assert_eq!(
        shutdown_outcome(Waited::TimedOut("t".to_string()), Waited::Answer(())),
        Err("Timeout shutting down V8 isolate manager executor: t".to_string())
    );
    assert_eq!(
        started(StartOutcome::<u8>::NoExecutor("x".to_string())),
        Err("Failed to create parallel luau executor: x".to_string())
    );
    assert_eq!(
        started(StartOutcome::<u8>::NoMessenger("x".to_string())),
        Err("Failed to receive messenger: x".to_string())
    );
    assert_eq!(from_string("s".to_string()), string("s"));
}

#[test]
fn copy_of_a_parallel_value_equals_it() {
    let p = ProxiedLuauValue::Psuedoprimitive(ProxiedLuauPsuedoPrimitive::StaticMap(vec![(
        string("k"),
        integer(-1),
    )]));
    assert_eq!(p.duplicate(), p);
}

#[test]
fn references_say_what_failed() {
    let no = || "e".to_string();
    assert_eq!(ForeignRef::disposed(Ok(())), Ok(()));
    assert_eq!(
        ForeignRef::disposed(Err(no())),
        Err("Failed to request dispose: e".to_string())
    );
    assert_eq!(ForeignRef::called(Ok(vec![text("s")])), Ok(vec![text("s")]));
    assert_eq!(ForeignRef::called(Err(no())), Err("Failed to call function: e".to_string()));
    assert_eq!(ForeignRef::property(Ok(text("s"))), Ok(text("s")));
    assert_eq!(ForeignRef::property(Err(no())), Err("Failed to get property: e".to_string()));
    assert_eq!(ForeignLuauValue::disposed(Ok(())), Ok(()));
    assert_eq!(
        ForeignLuauValue::disposed(Err(no())),
        Err("Bridge call failed: e".to_string())
    );
}
