//! Luau values as messages.

use vstd::prelude::*;

use crate::luau::embedder_api::EmbedderData;
use crate::luau::value::{LuauValue, LuauView};
use crate::registry::RefKind;
use crate::text::{copy_bytes, join, text_of_lossy, text_read};

verus! {

/// Why a value is no message.
#[derive(Debug, PartialEq, Eq)]
pub enum MessageError {
    /// An error with that text.
    External(String),
    /// The value cannot be converted.
    Conversion { from: &'static str, to: &'static str, message: &'static str },
    /// The embedding program's own error.
    Converter(String),
}

/// Why a value is no message.
#[verifier::ext_equal]
pub enum MessageErrorView {
    External(Seq<char>),
    Conversion { from: Seq<char>, to: Seq<char>, message: Seq<char> },
    Converter(Seq<char>),
}

impl MessageError {
    /// What the error is.
    pub open spec fn view(self) -> MessageErrorView {
        match self {
            MessageError::External(e) => MessageErrorView::External(e@),
            MessageError::Conversion { from, to, message } => MessageErrorView::Conversion {
                from: from@,
                to: to@,
                message: message@,
            },
            MessageError::Converter(e) => MessageErrorView::Converter(e@),
        }
    }
}

/// What the embedding program's converter makes of a userdata.
#[derive(Debug, PartialEq, Eq)]
pub enum Converted<T> {
    /// The converter could not be reached.
    Unreachable(String),
    /// There is no converter.
    Absent,
    /// What it made, or its error.
    Result(Result<T, String>),
}

/// Whether a value is a userdata.
pub open spec fn is_userdata(v: LuauView) -> bool {
    match v {
        LuauView::UserData { .. } => true,
        LuauView::Ref(r) => r.kind == RefKind::UserData,
        _ => false,
    }
}

/// Whether a value is a userdata.
fn userdata(v: &LuauValue) -> (r: bool)
    ensures
        r == is_userdata(v@),
{
    match v {
        LuauValue::UserData { .. } => true,
        LuauValue::Ref(r) => r.kind == RefKind::UserData,
        _ => false,
    }
}

/// What comes of a userdata: what the converter made of it, which is held to no size.
pub open spec fn converted_as<T>(c: Converted<T>, name: Seq<char>, to: Seq<char>) -> Result<
    T,
    MessageErrorView,
> {
    match c {
        Converted::Unreachable(e) => Err(
            MessageErrorView::External("failed to get "@ + name + " from app data: "@ + e@),
        ),
        Converted::Absent => Err(
            MessageErrorView::Conversion {
                from: "userdata"@,
                to,
                message: "No "@ + name + " found to convert this userdata"@,
            },
        ),
        Converted::Result(r) => match r {
            Ok(x) => Ok(x),
            Err(e) => Err(MessageErrorView::Converter(e@)),
        },
    }
}

/// A string or a buffer as a message, within the size that is allowed.
pub open spec fn sized(bytes: Seq<u8>, ed: EmbedderData) -> Result<Seq<u8>, MessageErrorView> {
    if ed.allows(bytes.len()) {
        Ok(bytes)
    } else {
        Err(MessageErrorView::External(ed.refusal(bytes.len())))
    }
}

/// Converts a Luau value to a byte buffer for sending as a message
pub fn from_lua_binary(value: &LuauValue, converted: Converted<Vec<u8>>, ed: EmbedderData) -> (r:
    Result<Vec<u8>, MessageError>)
    ensures
        match value@ {
            LuauView::String(bytes) => match (r, sized(bytes, ed)) {
                (Ok(b), Ok(v)) => b@ == v,
                (Err(e), Err(t)) => e@ == t,
                _ => false,
            },
            LuauView::Buffer { bytes, .. } => match (r, sized(bytes, ed)) {
                (Ok(b), Ok(v)) => b@ == v,
                (Err(e), Err(t)) => e@ == t,
                _ => false,
            },
            v => if is_userdata(v) {
                match (
                    r,
                    converted_as(
                        converted,
                        "LuauUserDataBinaryConverter"@,
                        "MessageEvent::Binary"@,
                    ),
                ) {
                    (Ok(b), Ok(v)) => b == v,
                    (Err(e), Err(t)) => e@ == t,
                    _ => false,
                }
            } else {
                r matches Err(e) && e@ == (MessageErrorView::Conversion {
                    from: v.typename(),
                    to: "MessageEvent"@,
                    message: "Expected string, userdata or buffer containing bytes"@,
                })
            },
        },
{
    if userdata(value) {
        return match converted {
            Converted::Unreachable(e) => {
                proof {
                    reveal_strlit("failed to get ");
                    reveal_strlit("LuauUserDataBinaryConverter");
                    reveal_strlit(" from app data: ");
                    reveal_strlit(
                        "failed to get LuauUserDataBinaryConverter from app data: ",
                    );
                    assert("failed to get "@ + "LuauUserDataBinaryConverter"@
                        + " from app data: "@
                        =~= "failed to get LuauUserDataBinaryConverter from app data: "@);
                }
                Err(
                    MessageError::External(
                        join("failed to get LuauUserDataBinaryConverter from app data: ", &e),
                    ),
                )
            },
            Converted::Absent => {
                proof {
                    reveal_strlit("No ");
                    reveal_strlit("LuauUserDataBinaryConverter");
                    reveal_strlit(" found to convert this userdata");
                    reveal_strlit(
                        "No LuauUserDataBinaryConverter found to convert this userdata",
                    );
                    assert("No "@ + "LuauUserDataBinaryConverter"@
                        + " found to convert this userdata"@
                        =~= "No LuauUserDataBinaryConverter found to convert this userdata"@);
                }
                Err(
                    MessageError::Conversion {
                        from: "userdata",
                        to: "MessageEvent::Binary",
                        message: "No LuauUserDataBinaryConverter found to convert this userdata",
                    },
                )
            },
            Converted::Result(r) => match r {
                Ok(b) => Ok(b),
                Err(e) => Err(MessageError::Converter(e)),
            },
        };
    }
    match value {
        LuauValue::String(bytes) => match ed.check_payload(bytes.len()) {
            Ok(()) => Ok(copy_bytes(bytes.as_slice())),
            Err(e) => Err(MessageError::External(e)),
        },
        LuauValue::Buffer { bytes, .. } => match ed.check_payload(bytes.len()) {
            Ok(()) => Ok(copy_bytes(bytes.as_slice())),
            Err(e) => Err(MessageError::External(e)),
        },
        _ => Err(
            MessageError::Conversion {
                from: value.typename(),
                to: "MessageEvent",
                message: "Expected string, userdata or buffer containing bytes",
            },
        ),
    }
}

/// Converts a Luau value to a string for sending as a message
pub fn from_lua_text(value: &LuauValue, converted: Converted<String>, ed: EmbedderData) -> (r:
    Result<String, MessageError>)
    ensures
        match value@ {
            LuauView::String(bytes) => match (r, sized(bytes, ed)) {
                (Ok(s), Ok(v)) => s@ == text_read(v),
                (Err(e), Err(t)) => e@ == t,
                _ => false,
            },
            v => if is_userdata(v) {
                match (
                    r,
                    converted_as(converted, "LuauUserDataTextConverter"@, "MessageEvent::Text"@),
                ) {
                    (Ok(s), Ok(v)) => s == v,
                    (Err(e), Err(t)) => e@ == t,
                    _ => false,
                }
            } else {
                r matches Err(e) && e@ == (MessageErrorView::Conversion {
                    from: v.typename(),
                    to: "MessageEvent"@,
                    message: "Expected String or UserData containing a string"@,
                })
            },
        },
        value@ matches LuauView::String(bytes) ==> ed.allows(bytes.len())
            && vstd::utf8::valid_utf8(bytes) ==> (r matches Ok(s) && s@ == vstd::utf8::decode_utf8(
            bytes,
        )),
{
    if userdata(value) {
        return match converted {
            Converted::Unreachable(e) => {
                proof {
                    reveal_strlit("failed to get ");
                    reveal_strlit("LuauUserDataTextConverter");
                    reveal_strlit(" from app data: ");
                    reveal_strlit("failed to get LuauUserDataTextConverter from app data: ");
                    assert("failed to get "@ + "LuauUserDataTextConverter"@ + " from app data: "@
                        =~= "failed to get LuauUserDataTextConverter from app data: "@);
                }
                Err(
                    MessageError::External(
                        join("failed to get LuauUserDataTextConverter from app data: ", &e),
                    ),
                )
            },
            Converted::Absent => {
                proof {
                    reveal_strlit("No ");
                    reveal_strlit("LuauUserDataTextConverter");
                    reveal_strlit(" found to convert this userdata");
                    reveal_strlit("No LuauUserDataTextConverter found to convert this userdata");
                    assert("No "@ + "LuauUserDataTextConverter"@
                        + " found to convert this userdata"@
                        =~= "No LuauUserDataTextConverter found to convert this userdata"@);
                }
                Err(
                    MessageError::Conversion {
                        from: "userdata",
                        to: "MessageEvent::Text",
                        message: "No LuauUserDataTextConverter found to convert this userdata",
                    },
                )
            },
            Converted::Result(r) => match r {
                Ok(s) => Ok(s),
                Err(e) => Err(MessageError::Converter(e)),
            },
        };
    }
    match value {
        LuauValue::String(bytes) => match ed.check_payload(bytes.len()) {
            Ok(()) => Ok(text_of_lossy(bytes.as_slice())),
            Err(e) => Err(MessageError::External(e)),
        },
        _ => Err(
            MessageError::Conversion {
                from: value.typename(),
                to: "MessageEvent",
                message: "Expected String or UserData containing a string",
            },
        ),
    }
}

} // verus!
