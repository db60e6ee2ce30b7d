//! Messages between Luau and v8.

use vstd::prelude::*;
use vstd::utf8::encode_utf8;

use crate::base::message::{with_context, ClientMessage, MessageView};
use crate::luau::embedder_api::EmbedderData;
use crate::text::copy_bytes;

verus! {

/// Bridge object for sending and receiving events between Luau and V8
#[derive(Debug, PartialEq, Eq)]
pub struct EventBridge {
    pub ed: EmbedderData,
}

impl EventBridge {
    /// Creates a new EventBridge object
    pub fn new(ed: EmbedderData) -> (r: Self)
        ensures
            r.ed == ed,
    {
        EventBridge { ed }
    }

    /// The message for a text, within the size that is allowed.
    pub fn send_text(&self, msg: String) -> (r: Result<ClientMessage, String>)
        ensures
            r is Ok <==> self.ed.allows(encode_utf8(msg@).len()),
            r matches Ok(m) ==> m@ == MessageView::Text(msg@),
            r matches Err(e) ==> e@ == self.ed.refusal(encode_utf8(msg@).len()),
    {
        match self.ed.check_payload(msg.as_str().as_bytes().len()) {
            Ok(()) => Ok(ClientMessage::SendText { msg }),
            Err(e) => Err(e),
        }
    }

    /// The message for some bytes, within the size that is allowed.
    pub fn send_binary(&self, msg: &[u8]) -> (r: Result<ClientMessage, String>)
        ensures
            r is Ok <==> self.ed.allows(msg@.len()),
            r matches Ok(m) ==> m@ == MessageView::Binary(msg@),
            r matches Err(e) ==> e@ == self.ed.refusal(msg@.len()),
    {
        match self.ed.check_payload(msg.len()) {
            Ok(()) => Ok(ClientMessage::SendBinary { msg: copy_bytes(msg) }),
            Err(e) => Err(e),
        }
    }

    /// How sending ends, given how the channel took the message.
    pub fn sent(taken: Result<(), String>) -> (r: Result<(), String>)
        ensures
            match (taken, r) {
                (Ok(_), Ok(_)) => true,
                (Err(e), Err(t)) => t@ == "Failed to send text message: "@ + e@,
                _ => false,
            },
    {
        with_context("Failed to send text message: ", taken)
    }

    /// How waiting for a text ends: `None` is a channel that somebody else waits on.
    pub fn receive_text(received: Option<Option<String>>) -> (r: Result<Option<String>, String>)
        ensures
            match received {
                None => r matches Err(e) && e@ == "Text message channel is already locked"@,
                Some(x) => r == Ok::<Option<String>, String>(x),
            },
    {
        match received {
            None => Err("Text message channel is already locked".to_owned()),
            Some(x) => Ok(x),
        }
    }

    /// How waiting for bytes ends: `None` is a channel that somebody else waits on.
    pub fn receive_binary(received: Option<Option<Vec<u8>>>) -> (r: Result<
        Option<Vec<u8>>,
        String,
    >)
        ensures
            match received {
                None => r matches Err(e) && e@ == "Binary message channel is already locked"@,
                Some(x) => r == Ok::<Option<Vec<u8>>, String>(x),
            },
    {
        match received {
            None => Err("Binary message channel is already locked".to_owned()),
            Some(x) => Ok(x),
        }
    }
}

} // verus!
