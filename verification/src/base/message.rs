//! What is said between the host and the foreign language.

use vstd::prelude::*;

use crate::luau::embedder_api::EmbedderData;
use crate::text::join;

verus! {

/// Internal representation of a message between host and foreign language
#[derive(Debug, PartialEq, Eq)]
#[allow(inconsistent_fields)]
pub enum ClientMessage {
    SendText { msg: String },
    SendBinary { msg: Vec<u8> },
}

/// Internal representation of a message between foreign language and host
#[derive(Debug, PartialEq, Eq)]
#[allow(inconsistent_fields)]
pub enum ServerMessage {
    SendText { msg: String },
    SendBinary { msg: Vec<u8> },
}

/// What a message is.
#[verifier::ext_equal]
pub enum MessageView {
    Text(Seq<char>),
    Binary(Seq<u8>),
}

impl ClientMessage {
    /// What the message is.
    pub open spec fn view(self) -> MessageView {
        match self {
            ClientMessage::SendText { msg } => MessageView::Text(msg@),
            ClientMessage::SendBinary { msg } => MessageView::Binary(msg@),
        }
    }
}

impl ServerMessage {
    /// What the message is.
    pub open spec fn view(self) -> MessageView {
        match self {
            ServerMessage::SendText { msg } => MessageView::Text(msg@),
            ServerMessage::SendBinary { msg } => MessageView::Binary(msg@),
        }
    }
}

/// What the foreign language starts with.
#[derive(Debug, PartialEq, Eq)]
pub struct InitialData {
    /// The files, by name.
    pub vfs: Vec<(String, String)>,
    pub ed: EmbedderData,
    pub module_name: String,
}

/// How a request to shut down ends, given whether the transport is shut down after it.
pub fn shutdown_result(is_shutdown: bool) -> (r: Result<(), String>)
    ensures
        r is Ok <==> is_shutdown,
        r matches Err(e) ==> e@ == "Transport did not shutdown properly"@,
{
    if !is_shutdown {
        return Err("Transport did not shutdown properly".to_owned());
    }
    Ok(())
}

/// A result with what was attempted in front of its error.
pub fn with_context<T>(what: &str, r: Result<T, String>) -> (q: Result<T, String>)
    ensures
        match (r, q) {
            (Ok(x), Ok(y)) => x == y,
            (Err(e), Err(t)) => t@ == what@ + e@,
            _ => false,
        },
{
    match r {
        Ok(x) => Ok(x),
        Err(e) => Err(join(what, &e)),
    }
}

} // verus!
