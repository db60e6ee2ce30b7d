//! The service through which a foreign language sends messages to Luau.

use vstd::prelude::*;

use crate::base::message::{with_context, MessageView};

verus! {

/// Messages sent to the Lua proxy bridge
#[derive(Debug, PartialEq, Eq)]
#[allow(inconsistent_fields)]
pub enum LuaBridgeMessage {
    SendText { msg: String },
    SendBinary { msg: Vec<u8> },
    Shutdown,
}

impl LuaBridgeMessage {
    /// What is said, and nothing for the end.
    pub open spec fn view(self) -> Option<MessageView> {
        match self {
            LuaBridgeMessage::SendText { msg } => Some(MessageView::Text(msg@)),
            LuaBridgeMessage::SendBinary { msg } => Some(MessageView::Binary(msg@)),
            LuaBridgeMessage::Shutdown => None,
        }
    }
}

/// What has arrived for Luau: the texts and the binary messages, each in the order in which they
/// came.
pub struct LuaBridgeService {
    pub text: Vec<String>,
    pub binary: Vec<Vec<u8>>,
}

/// The texts among some messages, in order.
pub open spec fn texts(said: Seq<MessageView>) -> Seq<Seq<char>>
    decreases said.len(),
{
    if said.len() == 0 {
        Seq::empty()
    } else {
        match said.last() {
            MessageView::Text(t) => texts(said.drop_last()).push(t),
            MessageView::Binary(_) => texts(said.drop_last()),
        }
    }
}

/// The binary messages among some messages, in order.
pub open spec fn binaries(said: Seq<MessageView>) -> Seq<Seq<u8>>
    decreases said.len(),
{
    if said.len() == 0 {
        Seq::empty()
    } else {
        match said.last() {
            MessageView::Text(_) => binaries(said.drop_last()),
            MessageView::Binary(b) => binaries(said.drop_last()).push(b),
        }
    }
}

impl LuaBridgeService {
    /// The texts that have arrived.
    pub open spec fn texts(&self) -> Seq<Seq<char>> {
        self.text@.map_values(|t: String| t@)
    }

    /// The binary messages that have arrived.
    pub open spec fn binaries(&self) -> Seq<Seq<u8>> {
        self.binary@.map_values(|b: Vec<u8>| b@)
    }

    /// What has arrived is what was said.
    pub open spec fn has_heard(&self, said: Seq<MessageView>) -> bool {
        self.texts() == texts(said) && self.binaries() == binaries(said)
    }

    /// Nothing has arrived.
    pub fn new() -> (r: Self)
        ensures
            r.has_heard(Seq::empty()),
    {
        let r = LuaBridgeService { text: Vec::new(), binary: Vec::new() };
        assert(r.texts() =~= texts(Seq::empty()));
        assert(r.binaries() =~= binaries(Seq::empty()));
        r
    }

    /// Takes a message in, and says whether the service goes on.
    pub fn on_message(&mut self, msg: LuaBridgeMessage) -> (r: bool)
        ensures
            r <==> msg@ is Some,
            final(self).texts() == match msg@ {
                Some(MessageView::Text(t)) => old(self).texts().push(t),
                _ => old(self).texts(),
            },
            final(self).binaries() == match msg@ {
                Some(MessageView::Binary(b)) => old(self).binaries().push(b),
                _ => old(self).binaries(),
            },
            msg@ matches Some(m) ==> forall|said: Seq<MessageView>|
                old(self).has_heard(said) ==> #[trigger] final(self).has_heard(said.push(m)),
    {
        match msg {
            LuaBridgeMessage::SendText { msg } => {
                let ghost view = MessageView::Text(msg@);
                self.text.push(msg);
                proof {
                    assert(self.texts() =~= old(self).texts().push(msg@));
                    assert forall|said: Seq<MessageView>| old(self).has_heard(said) implies
                        #[trigger] self.has_heard(said.push(view)) by {
                        assert(said.push(view).drop_last() =~= said);
                    }
                }
                true
            },
            LuaBridgeMessage::SendBinary { msg } => {
                let ghost view = MessageView::Binary(msg@);
                self.binary.push(msg);
                proof {
                    assert(self.binaries() =~= old(self).binaries().push(msg@));
                    assert forall|said: Seq<MessageView>| old(self).has_heard(said) implies
                        #[trigger] self.has_heard(said.push(view)) by {
                        assert(said.push(view).drop_last() =~= said);
                    }
                }
                true
            },
            LuaBridgeMessage::Shutdown => false,
        }
    }
}

/// The client side part of the Lua bridge service
#[derive(Debug, PartialEq, Eq)]
pub struct LuaBridgeServiceClient {}

impl LuaBridgeServiceClient {
    /// Sends a text message to the Lua side: the message that goes out
    pub fn send_text(msg: String) -> (r: LuaBridgeMessage)
        ensures
            r@ == Some(MessageView::Text(msg@)),
    {
        LuaBridgeMessage::SendText { msg }
    }

    /// Sends a binary message to the Lua side: the message that goes out
    pub fn send_binary(msg: Vec<u8>) -> (r: LuaBridgeMessage)
        ensures
            r@ == Some(MessageView::Binary(msg@)),
    {
        LuaBridgeMessage::SendBinary { msg }
    }

    /// How sending a text message to the Lua side ends
    pub fn text_sent(sent: Result<(), String>) -> (r: Result<(), String>)
        ensures
            match (sent, r) {
                (Ok(_), Ok(_)) => true,
                (Err(e), Err(t)) => t@ == "Failed to send text message: "@ + e@,
                _ => false,
            },
    {
        with_context("Failed to send text message: ", sent)
    }

    /// How sending a binary message to the Lua side ends
    pub fn binary_sent(sent: Result<(), String>) -> (r: Result<(), String>)
        ensures
            match (sent, r) {
                (Ok(_), Ok(_)) => true,
                (Err(e), Err(t)) => t@ == "Failed to send binary message: "@ + e@,
                _ => false,
            },
    {
        with_context("Failed to send binary message: ", sent)
    }
}

} // verus!
