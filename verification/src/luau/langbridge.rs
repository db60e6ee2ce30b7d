//! The userdata through which Luau talks to a foreign language.

use vstd::prelude::*;
use vstd::utf8::*;

use crate::base::message::{with_context, ClientMessage, MessageView, ServerMessage};
use crate::luau::embedder_api::EmbedderData;
use crate::luau::event::{
    converted_as, from_lua_binary, from_lua_text, is_userdata, sized, Converted, MessageError,
    MessageErrorView,
};
use crate::luau::value::{LuauValue, LuauView, FRESH};
use crate::text::{join, utf8_bytes};

verus! {

/// Common userdata for language bridges
#[derive(Debug, PartialEq, Eq)]
pub struct LangBridge {
    pub ed: EmbedderData,
}

/// What Luau gets for a message.
pub open spec fn message_in_luau(msg: MessageView) -> LuauView {
    match msg {
        MessageView::Text(text) => LuauView::String(encode_utf8(text)),
        MessageView::Binary(bytes) => LuauView::Buffer { handle: FRESH, bytes },
    }
}

impl LangBridge {
    /// Creates a new language bridge
    pub fn new(ed: EmbedderData) -> (r: Self)
        ensures
            r.ed == ed,
    {
        LangBridge { ed }
    }

    /// What Luau has for null.
    pub fn null(&self) -> (r: LuauValue)
        ensures
            r@ == LuauView::LightUserData(0),
    {
        LuauValue::LightUserData(0)
    }

    /// What is said of a value that is no text message, given how its error is shown.
    pub fn text_refused(shown: &str) -> (r: String)
        ensures
            r@ == "Failed to convert argument to string: "@ + shown@,
    {
        join("Failed to convert argument to string: ", shown)
    }

    /// What is said of a value that is no binary message, given how its error is shown.
    pub fn binary_refused(shown: &str) -> (r: String)
        ensures
            r@ == "Failed to convert argument to binary: "@ + shown@,
    {
        join("Failed to convert argument to binary: ", shown)
    }

    /// The text message that is sent for a value.
    pub fn sendtext(&self, msg: &LuauValue, converted: Converted<String>) -> (r: Result<
        ServerMessage,
        MessageError,
    >)
        ensures
            match msg@ {
                LuauView::String(bytes) => match (r, sized(bytes, self.ed)) {
                    (Ok(m), Ok(v)) => m@ == MessageView::Text(crate::text::text_read(v)),
                    (Err(e), Err(t)) => e@ == t,
                    _ => false,
                },
                v => if is_userdata(v) {
                    match (
                        r,
                        converted_as(
                            converted,
                            "LuauUserDataTextConverter"@,
                            "MessageEvent::Text"@,
                        ),
                    ) {
                        (Ok(m), Ok(s)) => m@ == MessageView::Text(s@),
                        (Err(e), Err(t)) => e@ == t,
                        _ => false,
                    }
                } else {
                    r matches Err(e) && e@ == (MessageErrorView::Conversion {
                        from: v.typename(),
                        to: "MessageEvent"@,
                        message: "Expected String or UserData containing a string"@,
                    })
                },
            },
            msg@ matches LuauView::String(bytes) ==> self.ed.allows(bytes.len()) && valid_utf8(
                bytes,
            ) ==> (r matches Ok(m) && m@ == MessageView::Text(decode_utf8(bytes))),
    {
        match from_lua_text(msg, converted, self.ed) {
            Ok(msg) => Ok(ServerMessage::SendText { msg }),
            Err(e) => Err(e),
        }
    }

    /// The binary message that is sent for a value.
    pub fn sendbinary(&self, msg: &LuauValue, converted: Converted<Vec<u8>>) -> (r: Result<
        ServerMessage,
        MessageError,
    >)
        ensures
            match msg@ {
                LuauView::String(bytes) => match (r, sized(bytes, self.ed)) {
                    (Ok(m), Ok(v)) => m@ == MessageView::Binary(v),
                    (Err(e), Err(t)) => e@ == t,
                    _ => false,
                },
                LuauView::Buffer { bytes, .. } => match (r, sized(bytes, self.ed)) {
                    (Ok(m), Ok(v)) => m@ == MessageView::Binary(v),
                    (Err(e), Err(t)) => e@ == t,
                    _ => false,
                },
                v => if is_userdata(v) {
                    match (
                        r,
                        converted_as(
                            converted,
                            "LuauUserDataBinaryConverter"@,
                            "MessageEvent::Binary"@,
                        ),
                    ) {
                        (Ok(m), Ok(b)) => m@ == MessageView::Binary(b@),
                        (Err(e), Err(t)) => e@ == t,
                        _ => false,
                    }
                } else {
                    r matches Err(e) && e@ == (MessageErrorView::Conversion {
                        from: v.typename(),
                        to: "MessageEvent"@,
                        message: "Expected string, userdata or buffer containing bytes"@,
                    })
                },
            },
    {
        match from_lua_binary(msg, converted, self.ed) {
            Ok(msg) => Ok(ServerMessage::SendBinary { msg }),
            Err(e) => Err(e),
        }
    }

    /// How sending a text message ends, given how the transport took it.
    pub fn text_sent(sent: Result<(), String>) -> (r: Result<(), String>)
        ensures
            match (sent, r) {
                (Ok(_), Ok(_)) => true,
                (Err(e), Err(t)) => t@ == "Failed to send text message: "@ + e@,
                _ => false,
            },
    {
        with_context("Failed to send text message: ", sent)
    }

    /// How sending a binary message ends, given how the transport took it.
    pub fn binary_sent(sent: Result<(), String>) -> (r: Result<(), String>)
        ensures
            match (sent, r) {
                (Ok(_), Ok(_)) => true,
                (Err(e), Err(t)) => t@ == "Failed to send binary message: "@ + e@,
                _ => false,
            },
    {
        with_context("Failed to send binary message: ", sent)
    }

    /// What Luau gets for what came from the foreign language.
    pub fn receive(msg: Result<ClientMessage, String>) -> (r: Result<LuauValue, String>)
        ensures
            match (msg, r) {
                (Ok(m), Ok(v)) => v@ == message_in_luau(m@),
                (Err(e), Err(t)) => t@ == "Failed to receive text message: "@ + e@,
                _ => false,
            },
    {
        match msg {
            Ok(ClientMessage::SendText { msg }) => Ok(LuauValue::String(utf8_bytes(&msg))),
            Ok(ClientMessage::SendBinary { msg }) => Ok(
                LuauValue::Buffer { handle: FRESH, bytes: msg },
            ),
            Err(e) => Err(join("Failed to receive text message: ", &e)),
        }
    }

    /// How shutting down ends, given how it went for the transport.
    pub fn shutdown(done: Result<(), String>) -> (r: Result<(), String>)
        ensures
            match (done, r) {
                (Ok(_), Ok(_)) => true,
                (Err(e), Err(t)) => t@ == "Failed to shutdown foreign language bridge: "@ + e@,
                _ => false,
            },
    {
        with_context("Failed to shutdown foreign language bridge: ", done)
    }

    /// Whether the transport is told to shut down when the bridge is dropped.
    pub fn fires_on_drop(is_shutdown: bool) -> (r: bool)
        ensures
            r <==> !is_shutdown,
    {
        !is_shutdown
    }
}

/// What Luau got as a text message it can send back as the same text, and what it got as a binary
/// message as the same bytes, as far as the size is allowed.
pub proof fn law_message_can_be_sent_back(msg: MessageView, ed: EmbedderData)
    ensures
        match msg {
            MessageView::Text(text) => {
                &&& message_in_luau(msg) matches LuauView::String(bytes)
                &&& valid_utf8(bytes)
                &&& decode_utf8(bytes) == text
                &&& ed.allows(bytes.len()) ==> sized(bytes, ed) == Ok::<
                    Seq<u8>,
                    MessageErrorView,
                >(bytes)
            },
            MessageView::Binary(bytes) => {
                &&& message_in_luau(msg) matches LuauView::Buffer { bytes: b, .. }
                &&& b == bytes
                &&& ed.allows(bytes.len()) ==> sized(b, ed) == Ok::<Seq<u8>, MessageErrorView>(
                    bytes,
                )
            },
        },
{
    if let MessageView::Text(text) = msg {
        encode_utf8_valid_utf8(text);
        encode_utf8_decode_utf8(text);
    }
}

} // verus!
