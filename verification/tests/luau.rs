use luaufusion::base::message::{ClientMessage, ServerMessage};
use luaufusion::luau::bridge::ObjectRegistryType;
use luaufusion::luau::embedder_api::{EmbedderData, EmbedderDataContext};
use luaufusion::luau::event::{from_lua_binary, from_lua_text, Converted, MessageError};
use luaufusion::luau::langbridge::LangBridge;
use luaufusion::luau::objreg::LuauObjectRegistryID;
use luaufusion::luau::service::{LuaBridgeMessage, LuaBridgeService, LuaBridgeServiceClient};
use luaufusion::luau::unknownvalue::UnknownHostLuauValue;
use luaufusion::luau::value::{LuauValue, Payload};
use luaufusion::text::{decimal_i64, decimal_u64, parse_i64, utf16_units};

fn ed(max: Option<usize>) -> EmbedderData {
    EmbedderData { heap_limit: 100, max_payload_size: max }
}

fn text(s: &str) -> LuauValue {
    LuauValue::String(s.as_bytes().to_vec())
}

#[test]
fn payload_is_checked_against_the_limit() {
    assert_eq!(ed(None).check_payload(usize::MAX), Ok(()));
    assert_eq!(ed(Some(3)).check_payload(3), Ok(()));
    assert_eq!(
        ed(Some(3)).check_payload(4),
        Err("Payload size 4 exceeds maximum allowed size of 3 bytes".to_string())
    );
    assert_eq!(ed(None).effective_heap_limit(50), 100);
    assert_eq!(ed(None).effective_heap_limit(500), 500);
}

#[test]
fn refused_charge_changes_nothing() {
    let mut ctx = EmbedderDataContext::new(ed(Some(5)));
    assert_eq!(ctx.add(5, "x"), Ok(()));
    assert_eq!(
        ctx.add(1, "x"),
        Err("x: Payload size 6 exceeds maximum allowed size of 5 bytes".to_string())
    );
    assert_eq!(ctx.size, 5);
    let inner = ctx.nest().unwrap();
    assert_eq!((inner.depth, inner.size), (1, 0));
    let beside = inner.nest_in_depth();
    assert_eq!((beside.depth, beside.size), (1, 0));
}

#[test]
fn text_message_is_taken_from_a_string() {
    assert_eq!(from_lua_text(&text("hi"), Converted::Absent, ed(None)), Ok("hi".to_string()));
    assert_eq!(
        from_lua_text(&text("hi"), Converted::Absent, ed(Some(1))),
        Err(MessageError::External(
            "Payload size 2 exceeds maximum allowed size of 1 bytes".to_string()
        ))
    );
    assert_eq!(
        from_lua_text(&LuauValue::Integer(1), Converted::Absent, ed(None)),
        Err(MessageError::Conversion {
            from: "integer",
            to: "MessageEvent",
            message: "Expected String or UserData containing a string"
        })
    );
}

#[test]
fn text_message_replaces_bytes_that_are_no_text() {
    let bytes = LuauValue::String(vec![0x61, 0xff]);
    assert_eq!(
        from_lua_text(&bytes, Converted::Absent, ed(None)),
        Ok("a\u{fffd}".to_string())
    );
}

#[test]
fn userdata_message_needs_a_converter() {
    let u = LuauValue::UserData { handle: 1, payload: Payload::Opaque };
    assert_eq!(
        from_lua_text(&u, Converted::Absent, ed(None)),
        Err(MessageError::Conversion {
            from: "userdata",
            to: "MessageEvent::Text",
            message: "No LuauUserDataTextConverter found to convert this userdata"
        })
    );
    assert_eq!(
        from_lua_text(&u, Converted::Result(Ok("c".to_string())), ed(None)),
        Ok("c".to_string())
    );
    assert_eq!(
        from_lua_binary(&u, Converted::Result(Ok(vec![1, 2])), ed(None)),
        Ok(vec![1, 2])
    );
    assert_eq!(
        from_lua_binary(&u, Converted::Absent, ed(None)),
        Err(MessageError::Conversion {
            from: "userdata",
            to: "MessageEvent::Binary",
            message: "No LuauUserDataBinaryConverter found to convert this userdata"
        })
    );
}

#[test]
fn binary_message_is_taken_from_bytes() {
    let buffer = LuauValue::Buffer { handle: 1, bytes: vec![0, 255] };
    assert_eq!(from_lua_binary(&buffer, Converted::Absent, ed(None)), Ok(vec![0, 255]));
    let s = LuauValue::String(vec![255]);
    assert_eq!(from_lua_binary(&s, Converted::Absent, ed(None)), Ok(vec![255]));
    assert_eq!(
        from_lua_binary(&LuauValue::Nil, Converted::Absent, ed(None)),
        Err(MessageError::Conversion {
            from: "nil",
            to: "MessageEvent",
            message: "Expected string, userdata or buffer containing bytes"
        })
    );
}

#[test]
fn received_message_can_be_sent_back() {
    let bridge = LangBridge::new(ed(None));
    let got = LangBridge::receive(Ok(ClientMessage::SendText { msg: "a".to_string() })).unwrap();
    assert_eq!(
        bridge.sendtext(&got, Converted::Absent),
        Ok(ServerMessage::SendText { msg: "a".to_string() })
    );
    let got = LangBridge::receive(Ok(ClientMessage::SendBinary { msg: vec![200] })).unwrap();
    assert_eq!(
        bridge.sendbinary(&got, Converted::Absent),
        Ok(ServerMessage::SendBinary { msg: vec![200] })
    );
    assert_eq!(
        LangBridge::receive(Err("x".to_string())),
        Err("Failed to receive text message: x".to_string())
    );
}

#[test]
fn lang_bridge_says_what_failed() {
    let no = || Err::<(), String>("no".to_string());
    assert_eq!(
        LangBridge::text_sent(no()),
        Err("Failed to send text message: no".to_string())
    );
    assert_eq!(
        LangBridge::binary_sent(no()),
        Err("Failed to send binary message: no".to_string())
    );
    assert_eq!(
        LangBridge::shutdown(no()),
        Err("Failed to shutdown foreign language bridge: no".to_string())
    );
    assert!(LangBridge::fires_on_drop(false));
    assert!(!LangBridge::fires_on_drop(true));
}

#[test]
fn service_keeps_messages_in_order() {
    let mut service = LuaBridgeService::new();
    assert!(service.on_message(LuaBridgeMessage::SendText { msg: "a".to_string() }));
    assert!(service.on_message(LuaBridgeMessage::SendBinary { msg: vec![1] }));
    assert!(service.on_message(LuaBridgeMessage::SendText { msg: "b".to_string() }));
    assert!(!service.on_message(LuaBridgeMessage::Shutdown));
    assert_eq!(service.text, vec!["a".to_string(), "b".to_string()]);
    assert_eq!(service.binary, vec![vec![1]]);
    assert_eq!(
        LuaBridgeServiceClient::text_sent(Err("x".to_string())),
        Err("Failed to send text message: x".to_string())
    );
    assert_eq!(
        LuaBridgeServiceClient::binary_sent(Err("x".to_string())),
        Err("Failed to send binary message: x".to_string())
    );
}

#[test]
fn unknown_value_tells_what_it_was() {
    let v = UnknownHostLuauValue::new(
        LuauObjectRegistryID::from_i64(4),
        ObjectRegistryType::Buffer,
        "lost".to_string(),
    );
    assert_eq!(v.id(), 4);
    assert_eq!(v.typ(), "buffer");
    assert_eq!(v.error(), "lost");
}

#[test]
fn decimal_is_read_back() {
    for i in [0, 7, -1, i64::MAX, i64::MIN] {
        assert_eq!(decimal_i64(i), i.to_string());
        assert_eq!(parse_i64(&decimal_i64(i)), Some(i));
    }
    assert_eq!(decimal_u64(u64::MAX), u64::MAX.to_string());
    assert_eq!(parse_i64("+5"), Some(5));
    assert_eq!(parse_i64("-"), None);
    assert_eq!(parse_i64("1x"), None);
}

#[test]
fn text_is_measured_in_utf16_units() {
    assert_eq!(utf16_units(""), 0);
    assert_eq!(utf16_units("h\u{e9}"), 2);
    assert_eq!(utf16_units("\u{1f600}"), 2);
}

#[test]
fn value_that_is_no_message_is_refused() {
    assert_eq!(LangBridge::text_refused("e"), "Failed to convert argument to string: e");
    assert_eq!(LangBridge::binary_refused("e"), "Failed to convert argument to binary: e");
}

#[test]
fn message_arrives_as_what_it_was_sent() {
    let mut service = LuaBridgeService::new();
    assert!(service.on_message(LuaBridgeServiceClient::send_text("a".to_string())));
    assert!(service.on_message(LuaBridgeServiceClient::send_binary(vec![7])));
    assert_eq!(service.text, vec!["a".to_string()]);
    assert_eq!(service.binary, vec![vec![7]]);
    assert!(!service.on_message(LuaBridgeMessage::Shutdown));
}

#[test]
fn sort_of_an_object_is_written_out() {
    let name: &'static str = ObjectRegistryType::Thread.into();
    assert_eq!(name, "thread");
    assert_eq!(<&'static str>::from(ObjectRegistryType::UserData), "userdata");
}
