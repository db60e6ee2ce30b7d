use luaufusion::luau::value::{LuauValue, Metatable, Number, Payload, Single, Stub, Vector3};
use luaufusion::registry::{ObjectRef, RefKind};
use luaufusion::rquickjs::loader::LoaderAndResolver;
use luaufusion::rquickjs::runtime::{
    quickjs_result, JSObjectProxy, LuaCallOutcome, LuaFunction, QjsFailure, QjsOutcome,
    QuickJSPromise, QuickjsRuntime, RuntimeAction, RuntimeEvent, ThreadOutcome,
};
use luaufusion::rquickjs::store::{PersistentStore, PersistentStoreHandler};
use luaufusion::rquickjs::value::{
    all_into_qjs, proxy_from_quickjs, proxy_object, Foreign, ProxyStores, QjsTree, QjsValue,
};
use rquickjs::loader::{Loader, Resolver};

fn text(s: &str) -> LuauValue {
    LuauValue::String(s.as_bytes().to_vec())
}

#[test]
fn added_module_is_resolved_and_loaded() {
    let mut modules = LoaderAndResolver::new();
    modules.add_module("mymodule", "\nexport function add(a, b) {\n    return a + b;\n}\n            ");
    let rt = rquickjs::Runtime::new().unwrap();
    let ctx = rquickjs::Context::full(&rt).unwrap();
    rt.set_loader(modules.resolver, modules.loader);
    let sum: i32 = ctx.with(|ctx| {
        let code = "import { add } from 'mymodule'; globalThis.sum = add(2, 3);";
        rquickjs::Module::evaluate(ctx.clone(), "main", code)
            .unwrap()
            .finish::<()>()
            .unwrap();
        ctx.globals().get("sum").unwrap()
    });
    assert_eq!(sum, 5);
}

#[test]
fn module_that_was_not_added_is_not_found() {
    let mut modules = LoaderAndResolver::new();
    modules.add_module("a", "export const x = 1;");
    let rt = rquickjs::Runtime::new().unwrap();
    let ctx = rquickjs::Context::full(&rt).unwrap();
    ctx.with(|ctx| {
        assert!(modules.resolver.resolve(&ctx, "", "a").is_ok());
        assert!(modules.resolver.resolve(&ctx, "", "b").is_err());
        assert!(modules.loader.load(&ctx, "b").is_err());
    });
}

#[test]
fn store_gives_back_what_was_added() {
    let mut store = PersistentStore::new();
    let a = store.add("a");
    let b = store.add("b");
    assert_eq!((a.index, b.index), (0, 1));
    assert_eq!(store.get(&a), Some(&"a"));
    let kept = a.clone();
    kept.clone().drop(&mut store);
    assert_eq!(store.get(&a), Some(&"a"));
    a.drop(&mut store);
    assert_eq!(store.get(&kept), None);
    assert_eq!(store.get(&b), Some(&"b"));
    assert_eq!(store.add("c").index, 0);
    store.clear();
    assert_eq!(store.get(&b), None);
}

#[test]
fn luau_values_in_quickjs() {
    assert_eq!(proxy_object(&LuauValue::Nil), Ok(QjsTree::Null));
    assert_eq!(proxy_object(&LuauValue::Integer(2147483647)), Ok(QjsTree::Int(2147483647)));
    assert_eq!(proxy_object(&LuauValue::Integer(2147483648)), Ok(QjsTree::BigInt(2147483648)));
    assert_eq!(
        proxy_object(&LuauValue::Integer(-2147483648)),
        Ok(QjsTree::Int(-2147483648))
    );
    assert_eq!(
        proxy_object(&LuauValue::Integer(-2147483649)),
        Ok(QjsTree::BigInt(-2147483649))
    );
    assert_eq!(
        proxy_object(&LuauValue::String(vec![0x61, 0xff])),
        Ok(QjsTree::String("a\u{fffd}".to_string()))
    );
    let t = LuauValue::Table {
        handle: 1,
        frozen: false,
        metatable: Metatable::Absent,
        len: 0,
        entries: vec![(text("k"), LuauValue::Boolean(true))],
    };
    assert_eq!(
        proxy_object(&t),
        Ok(QjsTree::Object(vec![(QjsTree::String("k".to_string()), QjsTree::Bool(true))]))
    );
    assert_eq!(
        proxy_object(&LuauValue::Error("e".to_string())),
        Err("Cannot proxy Lua error: e".to_string())
    );
    assert_eq!(
        proxy_object(&LuauValue::Other("e".to_string())),
        Err("Cannot proxy unknown/other Lua value".to_string())
    );
    assert_eq!(
        all_into_qjs(&vec![LuauValue::Error("e".to_string())], "arg: "),
        Err("arg: Cannot proxy Lua error: e".to_string())
    );
}

#[test]
fn quickjs_values_in_luau() {
    let mut stores = ProxyStores::new();
    assert_eq!(proxy_from_quickjs(&QjsValue::Undefined, &mut stores), Ok(LuauValue::Nil));
    assert_eq!(proxy_from_quickjs(&QjsValue::Int(-1), &mut stores), Ok(LuauValue::Integer(-1)));
    let three = QjsValue::Array(vec![
        QjsValue::Int(1),
        QjsValue::Float(Number::OfInt(2)),
        QjsValue::Int(3),
    ]);
    assert_eq!(
        proxy_from_quickjs(&three, &mut stores),
        Ok(LuauValue::Vector(Vector3 {
            x: Single::OfInt(1),
            y: Single::OfInt(2),
            z: Single::OfInt(3)
        }))
    );
    let three = QjsValue::Array(vec![QjsValue::Int(1), QjsValue::Null, QjsValue::Int(3)]);
    assert_eq!(
        proxy_from_quickjs(&three, &mut stores),
        Err("Error converting from js 'null' into type 'f64'".to_string())
    );
    assert_eq!(
        proxy_from_quickjs(&QjsValue::Foreign(Foreign::Symbol), &mut stores),
        Err("Cannot proxy unknown JS value to Lua".to_string())
    );
    let obj = QjsValue::Object {
        handle: 6,
        exception: false,
        props: vec![(QjsValue::String("a".to_string()), QjsValue::Bool(true))],
    };
    match proxy_from_quickjs(&obj, &mut stores).unwrap() {
        LuauValue::Table { entries, .. } => {
            assert_eq!(entries[0], (text("a"), LuauValue::Boolean(true)));
            assert_eq!(entries[1].0, text("proxy"));
            assert_eq!(
                entries[1].1,
                LuauValue::UserData { handle: 0, payload: Payload::JsObject(0) }
            );
        }
        _ => panic!("no table"),
    }
}

#[test]
fn luau_thread_comes_back_from_quickjs() {
    let mut stores = ProxyStores::new();
    let r = ObjectRef { kind: RefKind::Thread, handle: 3 };
    assert_eq!(proxy_object(&LuauValue::Ref(r)), Ok(QjsTree::LuaThread(r)));
    assert_eq!(
        proxy_from_quickjs(&QjsValue::LuaThread(r), &mut stores),
        Ok(LuauValue::Ref(r))
    );
}

#[test]
fn function_is_reached_through_its_handle() {
    let mut rt = QuickjsRuntime::new();
    rt.start();
    let f = QjsValue::Function { handle: 40, constructor: false };
    let got = rt.on_outcome(QjsOutcome::Value(f)).unwrap();
    let index = match got {
        LuauValue::Stub(Stub::JsFunction(index)) => index,
        _ => panic!("no function"),
    };
    let call = |drop| RuntimeEvent::RunQuickjsProxy {
        func_idx: PersistentStoreHandler { index, drop },
        args: vec![LuauValue::Integer(1)],
    };
    assert_eq!(
        rt.on_event(call(false)),
        RuntimeAction::Call { func: 40, args: vec![QjsTree::Int(1)] }
    );
    rt.stop();
    assert!(!rt.is_running);
    assert_eq!(
        rt.on_event(call(false)),
        RuntimeAction::Refuse("Invalid QuickJS function index".to_string())
    );
}

#[test]
fn promise_is_awaited_once() {
    let mut rt = QuickjsRuntime::new();
    let got = rt.on_outcome(QjsOutcome::Value(QjsValue::Promise(9))).unwrap();
    assert_eq!(got, LuauValue::UserData { handle: 0, payload: Payload::JsPromise(0) });
    let mut promise =
        QuickJSPromise { promise: Some(PersistentStoreHandler { index: 0, drop: true }) };
    assert_eq!(promise.await_once(false), Err("Lua state has been dropped".to_string()));
    let event = promise.await_once(true).unwrap();
    assert_eq!(rt.on_event(event), RuntimeAction::Await(9));
    assert_eq!(
        promise.await_once(true),
        Err("QuickJS promise has already been awaited".to_string())
    );
    let again = RuntimeEvent::RunQuickjsPromiseProxy {
        promise_idx: PersistentStoreHandler { index: 0, drop: true },
    };
    assert_eq!(
        rt.on_event(again),
        RuntimeAction::Refuse("Invalid QuickJS promise index".to_string())
    );
}

#[test]
fn object_stays_held_when_it_is_read() {
    let mut rt = QuickjsRuntime::new();
    let obj = QjsValue::Object { handle: 6, exception: false, props: vec![] };
    rt.on_outcome(QjsOutcome::Value(obj)).unwrap();
    let proxy = JSObjectProxy { obj: PersistentStoreHandler { index: 0, drop: true } };
    for _ in 0..2 {
        let event = proxy.get(true, text("k")).unwrap();
        assert_eq!(
            rt.on_event(event),
            RuntimeAction::Read { obj: 6, key: QjsTree::String("k".to_string()) }
        );
    }
    rt.lua_alive = false;
    let event = proxy.get(true, text("k")).unwrap();
    assert_eq!(
        rt.on_event(event),
        RuntimeAction::Refuse("Lua state has been dropped".to_string())
    );
    assert_eq!(proxy.get(false, text("k")), Err("Lua state has been dropped".to_string()));
}

#[test]
fn runtime_says_what_failed() {
    let mut rt = QuickjsRuntime::new();
    assert_eq!(
        rt.on_outcome(QjsOutcome::Failed(QjsFailure::CallFunction, "e".to_string())),
        Err("Failed to call QuickJS function: e".to_string())
    );
    assert_eq!(
        rt.on_outcome(QjsOutcome::Failed(QjsFailure::AwaitModule, "e".to_string())),
        Err("Failed to await QuickJS module evaluation: e".to_string())
    );
    assert_eq!(
        rt.on_outcome(QjsOutcome::Value(QjsValue::Foreign(Foreign::Module))),
        Err("Failed to proxy QuickJS return value to Lua: Cannot proxy unknown JS value to Lua"
            .to_string())
    );
    assert_eq!(
        QuickjsRuntime::on_thread(ThreadOutcome::NoValue),
        Err("Lua thread returned no value".to_string())
    );
    assert_eq!(
        QuickjsRuntime::on_thread(ThreadOutcome::Panicked(None)),
        Err("Panic occurred while executing Lua thread: Unknown panic".to_string())
    );
    assert_eq!(
        QuickjsRuntime::load_result(Err("e".to_string()), None),
        Err("Failed to send event to runtime: e".to_string())
    );
    assert_eq!(
        QuickjsRuntime::load_result(Ok(()), None),
        Err("Failed to receive result from runtime".to_string())
    );
    assert_eq!(quickjs_result("x: ", Ok(()), Some(Ok(1))), Ok(1));
    assert_eq!(
        quickjs_result::<u8>("x: ", Ok(()), None),
        Err("Failed to receive result from QuickJS runtime".to_string())
    );
}

#[test]
fn luau_function_answers_quickjs() {
    let mut rt = QuickjsRuntime::new();
    assert_eq!(
        LuaFunction::arguments(&mut rt, &vec![QjsValue::Bool(true), QjsValue::Null]),
        Ok(vec![LuauValue::Boolean(true), LuauValue::Nil])
    );
    let done = |values| LuaFunction::handle_async(LuaCallOutcome::Done(Ok(values)));
    assert_eq!(done(vec![]), Ok(QjsTree::Undefined));
    assert_eq!(done(vec![LuauValue::Integer(2)]), Ok(QjsTree::Int(2)));
    assert_eq!(
        done(vec![LuauValue::Integer(2), LuauValue::Nil]),
        Ok(QjsTree::Array(vec![QjsTree::Int(2), QjsTree::Null]))
    );
    assert_eq!(
        LuaFunction::handle_async(LuaCallOutcome::NoThread("e".to_string())),
        Err("Failed to create Lua thread: e".to_string())
    );
    assert_eq!(
        LuaFunction::handle_async(LuaCallOutcome::NoAnswer),
        Err("Failed to receive result from runtime".to_string())
    );
}

#[test]
fn property_of_a_quickjs_object_says_what_failed() {
    assert_eq!(JSObjectProxy::got(Ok(()), Some(Ok(text("v")))), Ok(text("v")));
    assert_eq!(
        JSObjectProxy::got(Err("e".to_string()), None),
        Err("Failed to request QuickJS for object: e".to_string())
    );
    assert_eq!(
        JSObjectProxy::got(Ok(()), None),
        Err("Failed to receive result from QuickJS runtime".to_string())
    );
}

#[test]
fn quickjs_function_is_called_from_luau() {
    let func = PersistentStoreHandler { index: 3, drop: true };
    assert_eq!(
        LuaFunction::from_quickjs(&func, true, vec![text("a")]),
        Ok(RuntimeEvent::RunQuickjsProxy {
            func_idx: PersistentStoreHandler { index: 3, drop: false },
            args: vec![text("a")],
        })
    );
    assert_eq!(
        LuaFunction::from_quickjs(&func, false, vec![]),
        Err("Lua state has been dropped".to_string())
    );
    assert_eq!(
        LuaFunction::quickjs_returned(Ok(()), Some(Ok(vec![text("r")]))),
        Ok(vec![text("r")])
    );
    assert_eq!(
        LuaFunction::quickjs_returned(Err("e".to_string()), None),
        Err("e".to_string())
    );
    assert_eq!(
        LuaFunction::quickjs_returned(Ok(()), None),
        Err("Failed to receive result from QuickJS runtime".to_string())
    );
}

#[test]
fn store_uses_free_slots_before_it_grows() {
    let mut store: PersistentStore<u64> = PersistentStore::new();
    let a = store.add(1);
    let b = store.add(2);
    let index = a.index;
    a.drop(&mut store);
    let c = store.add(3);
    assert_eq!(c.index, index);
    assert_eq!(store.get(&c), Some(&3));
    assert_eq!(store.get(&b), Some(&2));
    assert_eq!(store.add(4).index, 2);
}

#[test]
fn copies_of_a_handle_do_not_own_the_value() {
    let mut store: PersistentStore<u64> = PersistentStore::new();
    let handle = store.add(1);
    let copy = handle.clone();
    handle.clone().drop(&mut store);
    assert_eq!(store.get(&copy), Some(&1));
    let index = handle.index;
    handle.drop(&mut store);
    assert_eq!(store.get(&copy), None);
    assert_eq!(store.add(2).index, index);
}

#[test]
fn plain_values_come_back_from_quickjs() {
    let mut stores = ProxyStores::new();
    let part = |x: f32| QjsValue::Float(Number::OfSingle(Single::Bits(x.to_bits())));
    let single = |x: f32| Single::Bits(x.to_bits());
    let vector = LuauValue::Vector(Vector3 { x: single(0.5), y: single(-2.0), z: single(9.25) });
    let handed = [
        (LuauValue::Nil, QjsValue::Null),
        (LuauValue::Boolean(true), QjsValue::Bool(true)),
        (LuauValue::Integer(-7), QjsValue::Int(-7)),
        (text("h\u{e9}"), QjsValue::String("h\u{e9}".to_string())),
        (LuauValue::LightUserData(5), QjsValue::LuaLightUserData(5)),
        (vector, QjsValue::Array(vec![part(0.5), part(-2.0), part(9.25)])),
    ];
    for (value, handed) in handed {
        assert!(proxy_object(&value).is_ok());
        assert_eq!(proxy_from_quickjs(&handed, &mut stores), Ok(value));
    }
    assert_eq!(
        proxy_object(&text("h\u{e9}")),
        Ok(QjsTree::String("h\u{e9}".to_string()))
    );
    let mixed = QjsValue::Array(vec![QjsValue::Int(1), part(0.5), QjsValue::Int(3)]);
    assert_eq!(
        proxy_from_quickjs(&mixed, &mut stores),
        Ok(LuauValue::Vector(Vector3 {
            x: Single::OfInt(1),
            y: single(0.5),
            z: Single::OfInt(3)
        }))
    );
}
