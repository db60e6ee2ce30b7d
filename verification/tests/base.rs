use luaufusion::base::concurrency::{
    alphanumeric, before_channel, cancels_after_wait, cgroup_name, channel_made, fired,
    generate_random_alphanumeric_string, judge_start, limit_of, needs_cgroup, on_channel,
    oneshot_received, oneshot_receiver_movable, oneshot_sender_movable, oneshot_sent, plan_process,
    plan_shutdown, random_cgroup_name, random_socket_suffix, socket_suffix, ChildAction,
    ChildEvent, Executable, ExecutorKind, ProcessOpts, StartEvent, WaitEvent, CHARSET,
};
use luaufusion::base::deno;
use luaufusion::base::luau::{ProxiedLuaValue, ProxyLuaClient};
use luaufusion::base::message::{shutdown_result, with_context};
use luaufusion::base::objects::ObjectRegistry;
use luaufusion::base::path::is_same_path;
use luaufusion::base::proxy_bridge::{
    buffer_read, drop_request, stub_arguments, stub_returned, BridgeAction, CallOutcome,
    LuaProxyBridge, LuaProxyBridgeMessage, ObjectRegistryType, ValueArgs,
};
use luaufusion::denobridge::jsvalue::JsValue;
use luaufusion::luau::embedder_api::EmbedderData;
use luaufusion::luau::value::{LuauValue, Metatable, Number, Payload};
use luaufusion::registry::{ObjectRef, RefKind};
use luaufusion::transport::concurrentlyexec::{
    ConcurrentlyExecuteClient, ConcurrentlyExecuteServer, ConcurrentlyExecuteServerData,
    ConcurrentlyExecuteTransportClient, ReceiveOutcome, StartOutcome,
};

fn func(handle: u64) -> ObjectRef {
    ObjectRef { kind: RefKind::Function, handle }
}

fn table(metatable: Metatable, len: usize, entries: Vec<(LuauValue, LuauValue)>) -> LuauValue {
    LuauValue::Table { handle: 3, frozen: false, metatable, len, entries }
}

fn opts(argv: Vec<&str>) -> ProcessOpts {
    ProcessOpts {
        cmd_argv: argv.into_iter().map(|s| s.to_string()).collect(),
        mem_soft_limit: 10,
        mem_hard_limit: 20,
        start_timeout: std::time::Duration::from_secs(1),
    }
}

#[test]
fn random_name_has_the_asked_length() {
    let name = generate_random_alphanumeric_string(40);
    assert_eq!(name.len(), 40);
    assert!(name.chars().all(|c| CHARSET.contains(c)));
    assert_ne!(name, generate_random_alphanumeric_string(40));
    assert_eq!(generate_random_alphanumeric_string(0), "");
    assert_eq!(alphanumeric(&vec![0, 25, 26, 61]), "AZa9");
}

#[test]
fn socket_name_has_its_ends() {
    assert_eq!(socket_suffix("abc"), "ceabc.sock");
    let s = random_socket_suffix();
    assert!(s.starts_with("ce") && s.ends_with(".sock"));
    assert_eq!(s.len(), 2 + 16 + 5);
}

#[test]
fn cgroup_name_holds_pid_and_salt() {
    assert_eq!(cgroup_name(12, 0), "ce-12-0");
    let a = random_cgroup_name(7);
    assert!(a.starts_with("ce-7-"));
    assert!(a["ce-7-".len()..].parse::<u64>().is_ok());
    assert_ne!(a, random_cgroup_name(7));
}

#[test]
fn process_is_started_as_its_options_say() {
    let plan = plan_process(&opts(vec!["prog", "a", "b"]), Some("/tmp/x")).unwrap();
    assert_eq!(plan.exe, Executable::Named("prog".to_string()));
    assert_eq!(plan.args, vec!["a".to_string(), "b".to_string()]);
    assert_eq!(plan.uds_path, "/tmp/x");
    assert_eq!(plan.mem_soft_limit, "10");
    assert_eq!(plan.mem_hard_limit, "20");
    let plan = plan_process(&opts(vec!["-"]), Some("/tmp/x")).unwrap();
    assert_eq!(plan.exe, Executable::Current);
    assert!(plan.args.is_empty());
    assert_eq!(
        plan_process(&opts(vec![]), Some("/tmp/x")),
        Err("cmd_argv must contain at least the executable path".to_string())
    );
    assert_eq!(
        plan_process(&opts(vec!["-"]), None),
        Err("Failed to convert UDS path to str".to_string())
    );
}

#[test]
fn only_the_expected_process_is_talked_to() {
    let v = judge_start(StartEvent::Connected(Some("/a".to_string())), "/a");
    assert_eq!((v.cancel, v.result), (false, Ok(())));
    let v = judge_start(StartEvent::Connected(Some("/b".to_string())), "/a");
    assert_eq!(
        v.result,
        Err("Unix socket address pathname does not match expected path".to_string())
    );
    let v = judge_start(StartEvent::Connected(None), "/a");
    assert_eq!(v.result, Err("Failed to get pathname from unix socket address".to_string()));
    let v = judge_start(StartEvent::Exited, "/a");
    assert_eq!(
        (v.cancel, v.result),
        (true, Err("Process exited before connecting".to_string()))
    );
    let v = judge_start(StartEvent::TimedOut, "/a");
    assert_eq!(v.result, Err("Timed out waiting for process to connect".to_string()));
    let v = judge_start(StartEvent::AcceptFailed("no".to_string()), "/a");
    assert_eq!(v.result, Err("no".to_string()));
}

#[test]
fn channel_needs_connection_and_hand_over() {
    assert_eq!(channel_made(Ok(()), Ok(())), Ok(()));
    assert_eq!(
        channel_made(Err("x".to_string()), Ok(())),
        Err("Failed to create remoc connection: x".to_string())
    );
    assert_eq!(
        channel_made(Ok(()), Err("y".to_string())),
        Err("Failed to send LoadMpsc message to process: y".to_string())
    );
}

#[test]
fn limits_are_read_back() {
    let plan = plan_process(&opts(vec!["-"]), Some("p")).unwrap();
    assert_eq!(limit_of(Some(&plan.mem_soft_limit)), Some(10));
    assert_eq!(limit_of(None), Some(0));
    assert_eq!(limit_of(Some("-3")), Some(-3));
    assert_eq!(limit_of(Some("")), None);
    assert_eq!(limit_of(Some("9223372036854775807")), Some(i64::MAX));
    assert_eq!(limit_of(Some("9223372036854775808")), None);
    assert!(!needs_cgroup(0, 0));
    assert!(needs_cgroup(1, 0));
    assert!(needs_cgroup(0, 1));
    assert!(!needs_cgroup(-1, 0));
}

#[test]
fn process_client_waits_for_its_channel() {
    assert_eq!(before_channel(ChildEvent::<u8>::LoadMpsc), ChildAction::Start);
    assert_eq!(
        before_channel(ChildEvent::Message(1)),
        ChildAction::Abort("Received unexpected message before LoadMpsc")
    );
    assert_eq!(
        before_channel(ChildEvent::<u8>::Empty),
        ChildAction::Abort("Did not receive LoadMpsc message")
    );
    assert_eq!(
        before_channel(ChildEvent::<u8>::Failed),
        ChildAction::Abort("Failed to receive message from parent process")
    );
    assert_eq!(before_channel(ChildEvent::<u8>::Cancelled), ChildAction::Stop);
    assert_eq!(on_channel(ChildEvent::Message(1)), ChildAction::Forward(1));
    assert_eq!(on_channel(ChildEvent::<u8>::Empty), ChildAction::Listen);
    assert_eq!(
        on_channel(ChildEvent::<u8>::LoadMpsc),
        ChildAction::Abort("Received unexpected LoadMpsc message")
    );
}

#[test]
fn local_and_process_executors_answer_differently() {
    let no = || Err::<(), String>("no".to_string());
    assert_eq!(oneshot_sent(ExecutorKind::Local, no()), Ok(()));
    assert_eq!(
        oneshot_sent(ExecutorKind::Process, no()),
        Err("Failed to send value through process oneshot sender: no".to_string())
    );
    assert_eq!(oneshot_received(ExecutorKind::Local, Ok(4)), Ok(4));
    assert_eq!(
        oneshot_received(ExecutorKind::Local, no()),
        Err("Failed to receive value from local oneshot receiver: no".to_string())
    );
    assert_eq!(
        oneshot_received(ExecutorKind::Process, no()),
        Err("Failed to receive value from process oneshot receiver: no".to_string())
    );
    assert_eq!(
        oneshot_sender_movable(ExecutorKind::Local),
        Err("Cannot serialize local oneshot sender")
    );
    assert_eq!(
        oneshot_receiver_movable(ExecutorKind::Local),
        Err("Cannot serialize local oneshot receiver")
    );
    assert_eq!(oneshot_sender_movable(ExecutorKind::Process), Ok(()));
    assert_eq!(fired(ExecutorKind::Local, no()), Err("no".to_string()));
    assert_eq!(
        fired(ExecutorKind::Process, no()),
        Err("Failed to send message to process executor: no".to_string())
    );
    assert!(cancels_after_wait(WaitEvent::ProcessExited));
    assert!(!cancels_after_wait(WaitEvent::Cancelled));
    let plan = plan_shutdown(ExecutorKind::Process, no());
    assert_eq!((plan.cancel, plan.kill_after_ms, plan.result), (true, Some(100), Ok(())));
    let plan = plan_shutdown(ExecutorKind::Local, no());
    assert_eq!((plan.cancel, plan.kill_after_ms, plan.result), (false, None, no()));
}

#[test]
fn registry_gives_back_what_was_added() {
    let mut reg = ObjectRegistry::new(2);
    let a = reg.add(func(1)).unwrap();
    let b = reg.add(func(2)).unwrap();
    assert_ne!(a, b);
    assert_eq!(reg.get(a), Some(func(1)));
    assert_eq!(reg.add(func(3)), None);
    reg.remove(a);
    assert_eq!(reg.get(a), None);
    assert_eq!(reg.get(b), Some(func(2)));
}

#[test]
fn luau_values_are_copied_or_registered() {
    let mut plc = ProxyLuaClient::new();
    let v = table(
        Metatable::Absent,
        0,
        vec![(LuauValue::String(vec![97]), LuauValue::Ref(func(9)))],
    );
    let got = ProxiedLuaValue::from_lua_value(&v, &mut plc, 0).unwrap();
    let id = match &got {
        ProxiedLuaValue::Table(e) => match e[0].1 {
            ProxiedLuaValue::Function(id) => id,
            _ => panic!("no function"),
        },
        _ => panic!("no table"),
    };
    assert_eq!(plc.func_registry.get(id), Some(func(9)));
    let back = got.to_lua_value(&plc).unwrap();
    match back {
        LuauValue::Table { entries, .. } => assert_eq!(
            entries,
            vec![(LuauValue::String(vec![97]), LuauValue::Ref(func(9)))]
        ),
        _ => panic!("no table"),
    }
    assert_eq!(
        ProxiedLuaValue::Function(99).to_lua_value(&plc),
        Err("Function ID 99 not found in registry".to_string())
    );
}

#[test]
fn luau_value_that_is_too_deep_is_refused() {
    let mut plc = ProxyLuaClient::new();
    assert_eq!(
        ProxiedLuaValue::from_lua_value(&LuauValue::Nil, &mut plc, 11),
        Err("Maximum proxy depth of 10 exceeded".to_string())
    );
    assert_eq!(
        ProxiedLuaValue::from_lua_value(&LuauValue::Nil, &mut plc, 10),
        Ok(ProxiedLuaValue::Nil)
    );
    assert_eq!(
        ProxiedLuaValue::from_lua_value(&LuauValue::Error("e".to_string()), &mut plc, 0),
        Err("Cannot proxy Lua error value: e".to_string())
    );
}

#[test]
fn dead_luau_state_is_told() {
    let mut plc = ProxyLuaClient::new();
    plc.lua_alive = false;
    let t = table(Metatable::Absent, 0, vec![]);
    assert_eq!(
        ProxiedLuaValue::from_lua_value(&t, &mut plc, 0),
        Err("Table's Lua state has been dropped".to_string())
    );
    assert_eq!(
        ProxiedLuaValue::from_lua_value(&LuauValue::Other("x".to_string()), &mut plc, 0),
        Err("Lua state has been dropped".to_string())
    );
}

#[test]
fn parallel_state_cannot_get_userdata() {
    let plc = ProxyLuaClient::new();
    let text = "Cannot convert this ProxiedLuaValue to a parallel Lua value";
    assert_eq!(ProxiedLuaValue::UserData(1).to_parallel_lua_value(&plc), Err(text.to_string()));
    assert_eq!(ProxiedLuaValue::Thread(1).to_parallel_lua_value(&plc), Err(text.to_string()));
    assert_eq!(
        ProxiedLuaValue::Integer(4).to_parallel_lua_value(&plc),
        Ok(LuauValue::Integer(4))
    );
}

#[test]
fn js_values_are_copied_or_registered() {
    let mut client = deno::ProxyV8Client::new();
    let js = JsValue::Array(vec![JsValue::Int32(1), JsValue::Ref(func(5))]);
    let got = deno::ProxiedV8Value::proxy_from_v8(&js, &mut client, 0).unwrap();
    match got {
        deno::ProxiedV8Value::Array(items) => {
            assert_eq!(items[0], deno::ProxiedV8Value::Integer(1));
            match items[1] {
                deno::ProxiedV8Value::Function(id) => {
                    assert_eq!(client.func_registry.get(id), Some(func(5)))
                }
                _ => panic!("no function"),
            }
        }
        _ => panic!("no array"),
    }
    assert_eq!(
        deno::ProxiedV8Value::Object(1).proxy_to_lua(),
        Err("Unsupported V8 value type for proxying to Lua".to_string())
    );
    assert_eq!(
        deno::ProxiedV8Value::Integer(3).proxy_to_lua(),
        Ok(LuauValue::Integer(3))
    );
}

#[test]
fn bridge_calls_registered_functions() {
    let mut plc = ProxyLuaClient::new();
    let id = plc.func_registry.add(func(2)).unwrap();
    let msg = LuaProxyBridgeMessage::CallFunction {
        func_id: id,
        args: ValueArgs::Lua(vec![ProxiedLuaValue::Integer(5)]),
    };
    assert_eq!(
        LuaProxyBridge::on_message(&mut plc, msg),
        BridgeAction::Call { func: func(2), args: vec![LuauValue::Integer(5)] }
    );
    let drop = LuaProxyBridgeMessage::DropObject {
        obj_type: ObjectRegistryType::Function,
        obj_id: id,
    };
    assert_eq!(LuaProxyBridge::on_message(&mut plc, drop), BridgeAction::Done);
    let msg = LuaProxyBridgeMessage::CallFunction { func_id: id, args: ValueArgs::Lua(vec![]) };
    assert_eq!(
        LuaProxyBridge::on_message(&mut plc, msg),
        BridgeAction::Refuse(format!("Function ID {id} not found in registry"))
    );
    assert_eq!(
        LuaProxyBridge::on_message(&mut plc, LuaProxyBridgeMessage::Shutdown),
        BridgeAction::Stop
    );
}

#[test]
fn bridge_answers_what_a_function_returned() {
    let mut plc = ProxyLuaClient::new();
    let r = LuaProxyBridge::on_returned(
        &mut plc,
        CallOutcome::Returned(vec![LuauValue::Boolean(true)]),
    );
    assert_eq!(r.reply, Ok(vec![ProxiedLuaValue::Boolean(true)]));
    assert!(!r.stop);
    let r = LuaProxyBridge::on_returned(&mut plc, CallOutcome::Raised("e".to_string()));
    assert_eq!(r.reply, Err("Lua function error: e".to_string()));
    let r = LuaProxyBridge::on_returned(&mut plc, CallOutcome::Failed("e".to_string()));
    assert_eq!(r.reply, Err("Failed to call Lua function: e".to_string()));
}

#[test]
fn only_the_first_bridge_shuts_down() {
    let bridge = LuaProxyBridge::new();
    let copy = bridge.clone();
    assert_eq!(bridge.on_drop(), Some(LuaProxyBridgeMessage::Shutdown));
    assert_eq!(copy.on_drop(), None);
}

#[test]
fn request_says_what_failed() {
    let ok: Result<(), String> = Ok(());
    assert_eq!(
        LuaProxyBridge::request_result::<u8>("CallFunction", Err("x".to_string()), Ok(Ok(1))),
        Err("Failed to send CallFunction message: x".to_string())
    );
    assert_eq!(
        LuaProxyBridge::request_result::<u8>("ReadBuffer", ok, Err("y".to_string())),
        Err("Failed to receive ReadBuffer response: y".to_string())
    );
    assert_eq!(LuaProxyBridge::request_result("ReadBuffer", Ok(()), Ok(Ok(3))), Ok(3));
}

#[test]
fn dropped_values_are_given_back() {
    assert_eq!(drop_request(&LuauValue::Nil), None);
    let buffer = LuauValue::UserData { handle: 0, payload: Payload::LuaBuffer(6) };
    assert_eq!(
        drop_request(&buffer),
        Some(LuaProxyBridgeMessage::DropObject {
            obj_type: ObjectRegistryType::Buffer,
            obj_id: 6
        })
    );
}

#[test]
fn transport_hands_its_data_over() {
    let ed = EmbedderData { heap_limit: 5, max_payload_size: None };
    let data = ConcurrentlyExecuteServerData {
        ed,
        vfs: vec![("a".to_string(), "b".to_string())],
        module_name: "m".to_string(),
    };
    let init =
        ConcurrentlyExecuteTransportClient::initial_data(ConcurrentlyExecuteServer::bootstrap(data));
    assert_eq!(init.ed, ed);
    assert_eq!(init.vfs, vec![("a".to_string(), "b".to_string())]);
    assert_eq!(init.module_name, "m");
}

#[test]
fn transport_says_what_failed() {
    let no = || Err::<(), String>("no".to_string());
    assert_eq!(
        ConcurrentlyExecuteServer::started(StartOutcome::<u8>::NoExecutor("x".to_string())),
        Err("Failed to create V8 isolate manager executor: x".to_string())
    );
    assert_eq!(
        ConcurrentlyExecuteServer::started(StartOutcome::<u8>::NoMessenger("x".to_string())),
        Err("Failed to receive messenger: x".to_string())
    );
    assert_eq!(ConcurrentlyExecuteServer::started(StartOutcome::Started(3)), Ok(3));
    assert_eq!(
        ConcurrentlyExecuteServer::send_to_foreign(no()),
        Err("Failed to send message to target language: no".to_string())
    );
    assert_eq!(
        ConcurrentlyExecuteServer::receive_from_foreign(ReceiveOutcome::<u8>::Locked),
        Err("Lua bridge binary receiver is already locked".to_string())
    );
    assert_eq!(
        ConcurrentlyExecuteServer::shutdown(Ok(()), no()),
        Err("Failed to wait for target language to shut down: no".to_string())
    );
    assert_eq!(
        ConcurrentlyExecuteClient::send_to_host(no()),
        Err("Failed to send message to host language: no".to_string())
    );
    assert_eq!(
        ConcurrentlyExecuteClient::receive_from_host(ReceiveOutcome::<u8>::Failed("x".to_string())),
        Err("Failed to receive message from host language: x".to_string())
    );
    assert_eq!(ConcurrentlyExecuteClient::receive_from_host(ReceiveOutcome::Received(1)), Ok(1));
}

#[test]
fn shutdown_must_have_happened() {
    assert_eq!(shutdown_result(true), Ok(()));
    assert_eq!(shutdown_result(false), Err("Transport did not shutdown properly".to_string()));
    assert_eq!(with_context::<()>("a: ", Err("b".to_string())), Err("a: b".to_string()));
}

#[test]
fn numbers_round_by_their_source() {
    let n = Number::OfInt(3);
    assert_eq!(n.to_single(), luaufusion::luau::value::Single::OfInt(3));
}

#[test]
fn luau_value_comes_back_to_its_state() {
    let mut plc = ProxyLuaClient::new();
    let id = plc.func_registry.add(func(9)).unwrap();
    let p = ProxiedLuaValue::Table(vec![(
        ProxiedLuaValue::String(vec![97]),
        ProxiedLuaValue::Array(vec![ProxiedLuaValue::Integer(4), ProxiedLuaValue::Function(id)]),
    )]);
    let made = p.to_lua_value(&plc).unwrap();
    assert_eq!(ProxiedLuaValue::from_lua_value(&made, &mut plc, 0), Ok(p));
}

#[test]
fn function_of_another_state_converts_its_arguments() {
    let mut plc = ProxyLuaClient::new();
    assert_eq!(
        stub_arguments(&vec![LuauValue::Integer(2), LuauValue::Nil], &mut plc),
        Ok(ValueArgs::Lua(vec![ProxiedLuaValue::Integer(2), ProxiedLuaValue::Nil]))
    );
    assert_eq!(
        stub_arguments(&vec![LuauValue::Error("e".to_string())], &mut plc),
        Err("Failed to convert argument to proxied Lua value: Cannot proxy Lua error value: e"
            .to_string())
    );
}

#[test]
fn function_of_another_state_gives_its_values() {
    let plc = ProxyLuaClient::new();
    assert_eq!(
        stub_returned(Ok(vec![ProxiedLuaValue::Boolean(true)]), &plc),
        Ok(vec![LuauValue::Boolean(true)])
    );
    assert_eq!(
        stub_returned(Err("e".to_string()), &plc),
        Err("Failed to call proxied Lua function: e".to_string())
    );
    assert_eq!(
        stub_returned(Ok(vec![ProxiedLuaValue::Thread(1)]), &plc),
        Err("Failed to convert return value to Lua value: Cannot convert this ProxiedLuaValue to \
             a parallel Lua value"
            .to_string())
    );
}

#[test]
fn buffer_of_another_state_is_read() {
    assert_eq!(buffer_read(Ok(vec![1, 2])), Ok(vec![1, 2]));
    assert_eq!(
        buffer_read(Err("e".to_string())),
        Err("Failed to read proxied buffer: e".to_string())
    );
}

#[test]
fn process_is_known_by_its_path() {
    let connects = |from: &str, at: &str| {
        judge_start(StartEvent::Connected(Some(from.to_string())), at).result.is_ok()
    };
    for same in ["/tmp/a.sock", "/tmp//a.sock", "//tmp/./a.sock", "/tmp/a.sock/", "/tmp/a.sock/."] {
        assert!(connects(same, "/tmp/a.sock"), "{same}");
        assert!(std::path::Path::new(same) == std::path::Path::new("/tmp/a.sock"));
    }
    for other in ["tmp/a.sock", "/tmp/../tmp/a.sock", "/tmp/a.soc", "/tmp/a.sock.", ""] {
        assert!(!connects(other, "/tmp/a.sock"), "{other}");
        assert!(std::path::Path::new(other) != std::path::Path::new("/tmp/a.sock"));
    }
    assert!(!is_same_path("./a", "a"));
    assert!(is_same_path("a/./b", "a/b"));
    assert!(is_same_path("", ""));
    for a in ["", ".", "/", "//", "/.", "./", "a", "./a", "a/", "a/.", "a//b", "a/b", "..", "/a"] {
        for b in ["", ".", "/", "//", "/.", "./", "a", "./a", "a/", "a/.", "a/b", "..", "/./a"] {
            let same = std::path::Path::new(a) == std::path::Path::new(b);
            assert_eq!(is_same_path(a, b), same, "{a} {b}");
        }
    }
}
