//! A transport between two processes.

use vstd::prelude::*;

use crate::base::message::{with_context, InitialData};
use crate::luau::embedder_api::EmbedderData;
use crate::text::join;

verus! {

/// What the server is given to start the other process with.
#[derive(Debug, PartialEq, Eq)]
pub struct ConcurrentlyExecuteServerData {
    pub ed: EmbedderData,
    /// The files, by name.
    pub vfs: Vec<(String, String)>,
    pub module_name: String,
}

/// What the other process is started with.
#[derive(Debug, PartialEq, Eq)]
pub struct BootstrapData {
    pub ed: EmbedderData,
    /// The files, by name.
    pub vfs: Vec<(String, String)>,
    pub module_name: String,
}

/// The server's end of the transport.
#[derive(Debug, PartialEq, Eq)]
pub struct ConcurrentlyExecuteServer {}

/// How the start of the other process came out.
#[derive(Debug, PartialEq, Eq)]
pub enum StartOutcome<T> {
    /// The executor could not be made.
    NoExecutor(String),
    /// The other process did not send its end of the channel.
    NoMessenger(String),
    /// The end of the channel.
    Started(T),
}

/// How the wait for a message came out.
#[derive(Debug, PartialEq, Eq)]
pub enum ReceiveOutcome<T> {
    /// Somebody else waits already.
    Locked,
    /// No message came.
    Failed(String),
    /// The message.
    Received(T),
}

impl ConcurrentlyExecuteServer {
    /// What the other process is started with.
    pub fn bootstrap(data: ConcurrentlyExecuteServerData) -> (r: BootstrapData)
        ensures
            r == (BootstrapData { ed: data.ed, vfs: data.vfs, module_name: data.module_name }),
    {
        BootstrapData { ed: data.ed, vfs: data.vfs, module_name: data.module_name }
    }

    /// The end of the channel to the other process, or why there is none.
    pub fn started<T>(outcome: StartOutcome<T>) -> (r: Result<T, String>)
        ensures
            match outcome {
                StartOutcome::NoExecutor(t) => r matches Err(e) && e@
                    == "Failed to create V8 isolate manager executor: "@ + t@,
                StartOutcome::NoMessenger(t) => r matches Err(e) && e@
                    == "Failed to receive messenger: "@ + t@,
                StartOutcome::Started(x) => r == Ok::<T, String>(x),
            },
    {
        match outcome {
            StartOutcome::NoExecutor(e) => Err(
                join("Failed to create V8 isolate manager executor: ", &e),
            ),
            StartOutcome::NoMessenger(e) => Err(join("Failed to receive messenger: ", &e)),
            StartOutcome::Started(x) => Ok(x),
        }
    }

    /// How sending to the foreign language ends.
    pub fn send_to_foreign(sent: Result<(), String>) -> (r: Result<(), String>)
        ensures
            match (sent, r) {
                (Ok(_), Ok(_)) => true,
                (Err(e), Err(t)) => t@ == "Failed to send message to target language: "@ + e@,
                _ => false,
            },
    {
        with_context("Failed to send message to target language: ", sent)
    }

    /// How waiting for the foreign language ends.
    pub fn receive_from_foreign<T>(outcome: ReceiveOutcome<T>) -> (r: Result<T, String>)
        ensures
            match outcome {
                ReceiveOutcome::Locked => r matches Err(e) && e@
                    == "Lua bridge binary receiver is already locked"@,
                ReceiveOutcome::Failed(t) => r matches Err(e) && e@
                    == "Failed to send message to target language: "@ + t@,
                ReceiveOutcome::Received(x) => r == Ok::<T, String>(x),
            },
    {
        match outcome {
            ReceiveOutcome::Locked => Err(
                "Lua bridge binary receiver is already locked".to_owned(),
            ),
            ReceiveOutcome::Failed(e) => Err(
                join("Failed to send message to target language: ", &e),
            ),
            ReceiveOutcome::Received(x) => Ok(x),
        }
    }

    /// How shutting down ends, given how the executor was shut down and how it was waited for.
    pub fn shutdown(ended: Result<(), String>, waited: Result<(), String>) -> (r: Result<
        (),
        String,
    >)
        ensures
            match (ended, waited) {
                (Err(t), _) => r matches Err(e) && e@ == t@,
                (Ok(_), Err(t)) => r matches Err(e) && e@
                    == "Failed to wait for target language to shut down: "@ + t@,
                (Ok(_), Ok(_)) => r is Ok,
            },
    {
        match ended {
            Err(e) => Err(e),
            Ok(_) => with_context("Failed to wait for target language to shut down: ", waited),
        }
    }
}

/// The other process.
#[derive(Debug, PartialEq, Eq)]
pub struct ConcurrentlyExecuteTransportClient {}

impl ConcurrentlyExecuteTransportClient {
    /// What the foreign language starts with.
    pub fn initial_data(data: BootstrapData) -> (r: InitialData)
        ensures
            r == (InitialData { vfs: data.vfs, ed: data.ed, module_name: data.module_name }),
    {
        InitialData { vfs: data.vfs, ed: data.ed, module_name: data.module_name }
    }
}

/// The other process's end of the transport.
#[derive(Debug, PartialEq, Eq)]
pub struct ConcurrentlyExecuteClient {}

impl ConcurrentlyExecuteClient {
    /// How sending to the host ends.
    pub fn send_to_host(sent: Result<(), String>) -> (r: Result<(), String>)
        ensures
            match (sent, r) {
                (Ok(_), Ok(_)) => true,
                (Err(e), Err(t)) => t@ == "Failed to send message to host language: "@ + e@,
                _ => false,
            },
    {
        with_context("Failed to send message to host language: ", sent)
    }

    /// How waiting for the host ends.
    pub fn receive_from_host<T>(outcome: ReceiveOutcome<T>) -> (r: Result<T, String>)
        ensures
            match outcome {
                ReceiveOutcome::Locked => r matches Err(e) && e@
                    == "Lua bridge binary receiver is already locked"@,
                ReceiveOutcome::Failed(t) => r matches Err(e) && e@
                    == "Failed to receive message from host language: "@ + t@,
                ReceiveOutcome::Received(x) => r == Ok::<T, String>(x),
            },
    {
        match outcome {
            ReceiveOutcome::Locked => Err(
                "Lua bridge binary receiver is already locked".to_owned(),
            ),
            ReceiveOutcome::Failed(e) => Err(
                join("Failed to receive message from host language: ", &e),
            ),
            ReceiveOutcome::Received(x) => Ok(x),
        }
    }
}

} // verus!
