//! The process that runs an isolate.

use vstd::prelude::*;

use crate::base::message::{ClientMessage, ServerMessage};
use crate::text::join;

verus! {

/// Something that happens while an isolate runs.
#[derive(Debug, PartialEq, Eq)]
pub enum ClientEvent {
    /// The host sent something, or could not be heard.
    FromHost(Result<ServerMessage, String>),
    /// The module sent something.
    FromModule(ClientMessage),
    /// The isolate is cancelled.
    Cancelled,
    /// The event loop has nothing to do.
    Idle,
    /// The module is over.
    Evaluated(Result<(), String>),
}

/// What is done about it.
#[derive(Debug, PartialEq, Eq)]
pub enum ClientStep {
    /// Hand the text to the module.
    Text(String),
    /// Hand the bytes to the module.
    Binary(Vec<u8>),
    /// Send the message to the host.
    Send(ClientMessage),
    /// Say what went wrong, and go on.
    Report(String),
    /// Let others run, and go on.
    Yield,
    /// End, and say what went wrong if something did.
    Stop(Option<String>),
}

/// Where the module of that name is.
pub fn module_url(module_name: &str) -> (r: String)
    ensures
        r@ == "file:///"@ + module_name@,
{
    join("file:///", module_name)
}

/// What is done about something that happens.
pub fn on_event(event: ClientEvent) -> (r: ClientStep)
    ensures
        match event {
            ClientEvent::FromHost(Ok(ServerMessage::SendText { msg })) => r == ClientStep::Text(
                msg,
            ),
            ClientEvent::FromHost(Ok(ServerMessage::SendBinary { msg })) => r
                == ClientStep::Binary(msg),
            ClientEvent::FromHost(Err(t)) => r matches ClientStep::Report(e) && e@
                == "Error receiving message in V8 isolate manager: "@ + t@,
            ClientEvent::FromModule(msg) => r == ClientStep::Send(msg),
            ClientEvent::Cancelled => r == ClientStep::Stop(None),
            ClientEvent::Idle => r is Yield,
            ClientEvent::Evaluated(Ok(_)) => r == ClientStep::Stop(None),
            ClientEvent::Evaluated(Err(t)) => r matches ClientStep::Stop(Some(e)) && e@
                == "Error evaluating module in V8 isolate manager: "@ + t@,
        },
{
    match event {
        ClientEvent::FromHost(Ok(ServerMessage::SendText { msg })) => ClientStep::Text(msg),
        ClientEvent::FromHost(Ok(ServerMessage::SendBinary { msg })) => ClientStep::Binary(msg),
        ClientEvent::FromHost(Err(e)) => ClientStep::Report(
            join("Error receiving message in V8 isolate manager: ", &e),
        ),
        ClientEvent::FromModule(msg) => ClientStep::Send(msg),
        ClientEvent::Cancelled => ClientStep::Stop(None),
        ClientEvent::Idle => ClientStep::Yield,
        ClientEvent::Evaluated(Ok(_)) => ClientStep::Stop(None),
        ClientEvent::Evaluated(Err(e)) => ClientStep::Stop(
            Some(join("Error evaluating module in V8 isolate manager: ", &e)),
        ),
    }
}

} // verus!
