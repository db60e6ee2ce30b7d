//! What becomes of messages.

use vstd::prelude::*;
use vstd::utf8::encode_utf8;

use crate::base::message::MessageView;
use crate::luau::bridge::ObjectRegistryType;
use crate::luau::embedder_api::EmbedderData;
use crate::luau::event::{converted_as, is_userdata, sized, Converted, MessageErrorView};
use crate::luau::langbridge::message_in_luau;
use crate::luau::service::{binaries, texts};
use crate::luau::value::{LuauView, FRESH};
use crate::registry::RefKind;

verus! {

/// One message more comes behind those of its sort and leaves those of the other sort as they were.
pub proof fn law_message_is_heard_last(said: Seq<MessageView>, text: Seq<char>, bytes: Seq<u8>)
    ensures
        texts(Seq::empty()) == Seq::<Seq<char>>::empty(),
        binaries(Seq::empty()) == Seq::<Seq<u8>>::empty(),
        texts(said.push(MessageView::Text(text))) == texts(said).push(text),
        binaries(said.push(MessageView::Text(text))) == binaries(said),
        texts(said.push(MessageView::Binary(bytes))) == texts(said),
        binaries(said.push(MessageView::Binary(bytes))) == binaries(said).push(bytes),
{
    assert(said.push(MessageView::Text(text)).drop_last() =~= said);
    assert(said.push(MessageView::Binary(bytes)).drop_last() =~= said);
}

/// Every message is heard once.
pub proof fn law_every_message_is_heard(said: Seq<MessageView>)
    ensures
        texts(said).len() + binaries(said).len() == said.len(),
    decreases said.len(),
{
    if said.len() > 0 {
        law_every_message_is_heard(said.drop_last());
    }
}

/// A text becomes a string of its bytes in Luau, and a binary message a new buffer of its bytes.
pub proof fn law_message_in_luau(text: Seq<char>, bytes: Seq<u8>)
    ensures
        message_in_luau(MessageView::Text(text)) == LuauView::String(encode_utf8(text)),
        message_in_luau(MessageView::Binary(bytes)) == (LuauView::Buffer { handle: FRESH, bytes }),
{
}

/// A message of bytes is passed on as it is where it is no larger than the limit, and is refused else.
pub proof fn law_message_is_held_to_the_limit(bytes: Seq<u8>, ed: EmbedderData)
    ensures
        ({
            let fits = ed.max_payload_size matches Some(max) ==> bytes.len() <= max;
            &&& fits ==> sized(bytes, ed) == Ok::<Seq<u8>, MessageErrorView>(bytes)
            &&& !fits ==> sized(bytes, ed) is Err
        }),
{
}

/// What a converter makes of a userdata is passed on as it is, and so is its error; without a
/// converter there is an error.
pub proof fn law_converter_decides<T>(c: Converted<T>, name: Seq<char>, to: Seq<char>)
    ensures
        c matches Converted::Result(Ok(x)) ==> converted_as(c, name, to)
            == Ok::<T, MessageErrorView>(
            x,
        ),
        c matches Converted::Result(Err(e)) ==> converted_as(c, name, to) == Err::<
            T,
            MessageErrorView,
        >(MessageErrorView::Converter(e@)),
        c is Absent ==> converted_as(c, name, to) is Err,
        c is Unreachable ==> converted_as(c, name, to) is Err,
{
}

/// A userdata and a reference to one are userdata, and nothing else is.
pub proof fn law_what_is_userdata(v: LuauView)
    ensures
        is_userdata(v) <==> v is UserData || (v is Ref && v->Ref_0.kind == RefKind::UserData),
{
}

/// Each sort of object has a name of its own, and a value of that sort is called by it.
pub proof fn law_sorts_have_their_own_names(a: ObjectRegistryType, b: ObjectRegistryType,
    v: LuauView)
    ensures
        a.name() == b.name() ==> a == b,
        ObjectRegistryType::of_value(v) matches Some(typ) ==> v.typename() == typ.name(),
{
    reveal_strlit("table");
    reveal_strlit("function");
    reveal_strlit("userdata");
    reveal_strlit("buffer");
    reveal_strlit("thread");
    assert("table"@[0] == 't' && "function"@[0] == 'f' && "userdata"@[0] == 'u' && "buffer"@[0]
        == 'b'
        && "thread"@[0] == 't');
    assert("table"@.len() != "thread"@.len());
}

} // verus!
