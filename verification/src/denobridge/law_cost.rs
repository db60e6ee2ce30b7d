//! What is charged for a conversion, and when it is refused for it.

use vstd::prelude::*;
use vstd::utf8::encode_utf8;

use crate::denobridge::conv_luau::{
    dict_of_luau, dict_to_luau, list_of_luau, list_to_luau, psuedo_of_luau, psuedo_to_luau,
    value_of_luau, value_to_luau,
};
use crate::denobridge::conv_v8::{
    dict_of_v8, dict_to_v8, list_of_v8, list_to_v8, psuedo_of_v8, psuedo_to_v8, value_of_v8,
    value_to_v8,
};
use crate::denobridge::jsvalue::JsView;
use crate::denobridge::value::V8View;
use crate::luau::embedder_api::EmbedderDataContext;
use crate::luau::value::{LuauView, Metatable};
use crate::registry::RegistryView;
use crate::text::utf16_len;
use crate::MAX_PROXY_DEPTH;

verus! {

/// Whether so much more stays within the limit of an account, counted up to the largest number there
/// is.
pub open spec fn has_left(ed: EmbedderDataContext, n: nat) -> bool {
    ed.ed.max_payload_size matches Some(max) ==> ed.size + n <= max || max == usize::MAX
}

/// Whether a conversion is charged so much, and is refused where that is more than the account has
/// left and nowhere else.
pub open spec fn charges(
    ok: bool,
    after: EmbedderDataContext,
    ed: EmbedderDataContext,
    n: nat,
) -> bool {
    &&& ok <==> has_left(ed, n)
    &&& charges_if_sent(ok, after, ed, n)
}

/// Whether a conversion is charged so much where it succeeds, and the account had so much left.
pub open spec fn charges_if_sent(
    ok: bool,
    after: EmbedderDataContext,
    ed: EmbedderDataContext,
    n: nat,
) -> bool {
    ok ==> {
        &&& has_left(ed, n)
        &&& after.ed == ed.ed
        &&& after.depth == ed.depth
        &&& after.size == if ed.size + n <= usize::MAX {
            ed.size + n
        } else {
            usize::MAX as int
        }
    }
}

/// What is charged for a value of Luau: one, and as much as a text is long.
pub proof fn law_luau_value_is_charged(v: LuauView, reg: RegistryView, ed: EmbedderDataContext)
    ensures
        v is Nil ==> charges(value_of_luau(v, reg, ed).res is Ok, value_of_luau(v, reg, ed).ed, ed,
            1),
        v matches LuauView::Boolean(_)
            ==> charges(value_of_luau(v, reg, ed).res is Ok, value_of_luau(v, reg, ed).ed, ed, 1),
        v matches LuauView::LightUserData(_)
            ==> charges(value_of_luau(v, reg, ed).res is Ok, value_of_luau(v, reg, ed).ed, ed, 1),
        v matches LuauView::Integer(_)
            ==> charges(value_of_luau(v, reg, ed).res is Ok, value_of_luau(v, reg, ed).ed, ed, 1),
        v matches LuauView::Number(_)
            ==> charges(value_of_luau(v, reg, ed).res is Ok, value_of_luau(v, reg, ed).ed, ed, 1),
        v matches LuauView::Vector(_)
            ==> charges(value_of_luau(v, reg, ed).res is Ok, value_of_luau(v, reg, ed).ed, ed, 1),
        v matches LuauView::String(bytes)
            ==> (bytes.len() <= usize::MAX
                ==> charges(value_of_luau(v, reg, ed).res is Ok, value_of_luau(v, reg, ed).ed, ed,
                    1 + bytes.len())),
        v matches LuauView::Other(text)
            ==> (encode_utf8("unknown("@ + text + ")"@).len() <= usize::MAX
                ==> charges(value_of_luau(v, reg, ed).res is Ok, value_of_luau(v, reg, ed).ed, ed,
                    1 + encode_utf8("unknown("@ + text + ")"@).len())),
        v matches LuauView::UserData { .. }
            ==> charges_if_sent(value_of_luau(v, reg, ed).res is Ok, value_of_luau(v, reg, ed).ed,
                ed, 1),
        v matches LuauView::Buffer { .. }
            ==> charges_if_sent(value_of_luau(v, reg, ed).res is Ok, value_of_luau(v, reg, ed).ed,
                ed, 1),
        v matches LuauView::Ref(_)
            ==> charges_if_sent(value_of_luau(v, reg, ed).res is Ok, value_of_luau(v, reg, ed).ed,
                ed, 1),
{
    let psuedo = psuedo_of_luau(v, reg, ed.sibling());
}

/// What is charged for a value on its way into Luau: one for a reference, two for any other, and as much
/// as a text is long.
pub proof fn law_value_in_luau_is_charged(p: V8View, reg: RegistryView, ed: EmbedderDataContext)
    ensures
        p is Nil ==> charges(value_to_luau(p, reg, ed).res is Ok, value_to_luau(p, reg, ed).ed, ed,
            2),
        p is Undefined ==> charges(value_to_luau(p, reg, ed).res is Ok,
            value_to_luau(p, reg, ed).ed, ed, 2),
        p matches V8View::Boolean(_)
            ==> charges(value_to_luau(p, reg, ed).res is Ok, value_to_luau(p, reg, ed).ed, ed, 2),
        p matches V8View::Integer(_)
            ==> charges(value_to_luau(p, reg, ed).res is Ok, value_to_luau(p, reg, ed).ed, ed, 2),
        p matches V8View::BigInt(_)
            ==> charges(value_to_luau(p, reg, ed).res is Ok, value_to_luau(p, reg, ed).ed, ed, 2),
        p matches V8View::String(s)
            ==> (encode_utf8(s).len() <= usize::MAX
                ==> charges(value_to_luau(p, reg, ed).res is Ok, value_to_luau(p, reg, ed).ed, ed,
                    2 + encode_utf8(s).len())),
        p matches V8View::Number(_)
            ==> charges(value_to_luau(p, reg, ed).res is Ok, value_to_luau(p, reg, ed).ed, ed, 2),
        p matches V8View::Vector(_)
            ==> charges(value_to_luau(p, reg, ed).res is Ok, value_to_luau(p, reg, ed).ed, ed, 2),
        p matches V8View::Bytes(bytes)
            ==> (bytes.len() <= usize::MAX
                ==> charges(value_to_luau(p, reg, ed).res is Ok, value_to_luau(p, reg, ed).ed, ed,
                    2 + bytes.len())),
        p matches V8View::V8Owned(_, _)
            ==> charges(value_to_luau(p, reg, ed).res is Ok, value_to_luau(p, reg, ed).ed, ed, 1),
        p matches V8View::SourceOwned(_, _)
            ==> charges_if_sent(value_to_luau(p, reg, ed).res is Ok, value_to_luau(p, reg, ed).ed,
                ed, 1),
{
    if ed.after(1, "ProxiedV8Value -> <base overhead>"@) is Ok {
        let psuedo = psuedo_to_luau(
            p,
            reg,
            ed.after(1, "ProxiedV8Value -> <base overhead>"@)->Ok_0,
        );
    }
}

/// What is charged for a value on its way into v8: one for a reference, two for any other, and as much
/// as a text is long.
pub proof fn law_value_in_v8_is_charged(p: V8View, reg: RegistryView, ed: EmbedderDataContext)
    ensures
        p is Nil ==> charges(value_to_v8(p, reg, ed).res is Ok, value_to_v8(p, reg, ed).ed, ed, 2),
        p is Undefined ==> charges(value_to_v8(p, reg, ed).res is Ok, value_to_v8(p, reg, ed).ed,
            ed, 2),
        p matches V8View::Boolean(_)
            ==> charges(value_to_v8(p, reg, ed).res is Ok, value_to_v8(p, reg, ed).ed, ed, 2),
        p matches V8View::Integer(_)
            ==> charges(value_to_v8(p, reg, ed).res is Ok, value_to_v8(p, reg, ed).ed, ed, 2),
        p matches V8View::BigInt(_)
            ==> charges(value_to_v8(p, reg, ed).res is Ok, value_to_v8(p, reg, ed).ed, ed, 2),
        p matches V8View::String(s)
            ==> (encode_utf8(s).len() <= usize::MAX
                ==> charges(value_to_v8(p, reg, ed).res is Ok, value_to_v8(p, reg, ed).ed, ed,
                    2 + encode_utf8(s).len())),
        p matches V8View::Number(_)
            ==> charges(value_to_v8(p, reg, ed).res is Ok, value_to_v8(p, reg, ed).ed, ed, 2),
        p matches V8View::Vector(_)
            ==> charges(value_to_v8(p, reg, ed).res is Ok, value_to_v8(p, reg, ed).ed, ed, 2),
        p matches V8View::Bytes(bytes)
            ==> (bytes.len() <= usize::MAX
                ==> charges(value_to_v8(p, reg, ed).res is Ok, value_to_v8(p, reg, ed).ed, ed,
                    2 + bytes.len())),
        p matches V8View::V8Owned(_, _)
            ==> charges(value_to_v8(p, reg, ed).res is Ok, value_to_v8(p, reg, ed).ed, ed, 1),
        p matches V8View::SourceOwned(_, _)
            ==> charges(value_to_v8(p, reg, ed).res is Ok, value_to_v8(p, reg, ed).ed, ed, 1),
{
    if ed.after(1, "ProxiedV8Value -> <base overhead>"@) is Ok {
        let psuedo = psuedo_to_v8(
            p,
            reg,
            ed.after(1, "ProxiedV8Value -> <base overhead>"@)->Ok_0,
        );
    }
}

/// What is charged for a value of v8: two for a primitive, three for any other, and as much as a text or
/// an array of bytes is long.
pub proof fn law_v8_value_is_charged(v: JsView, reg: RegistryView, ed: EmbedderDataContext)
    ensures
        v is Null ==> charges(value_of_v8(v, reg, ed).res is Ok, value_of_v8(v, reg, ed).ed, ed, 2),
        v is Undefined ==> charges(value_of_v8(v, reg, ed).res is Ok, value_of_v8(v, reg, ed).ed,
            ed, 2),
        v matches JsView::Boolean(_)
            ==> charges(value_of_v8(v, reg, ed).res is Ok, value_of_v8(v, reg, ed).ed, ed, 2),
        v matches JsView::Int32(_)
            ==> charges(value_of_v8(v, reg, ed).res is Ok, value_of_v8(v, reg, ed).ed, ed, 2),
        v matches JsView::BigInt(_)
            ==> charges(value_of_v8(v, reg, ed).res is Ok, value_of_v8(v, reg, ed).ed, ed, 2),
        v matches JsView::WideBigInt(text) ==> utf16_len(text) <= usize::MAX
            ==> charges(value_of_v8(v, reg, ed).res is Ok, value_of_v8(v, reg, ed).ed, ed,
                2 + utf16_len(text)),
        v matches JsView::String(text) ==> utf16_len(text) <= usize::MAX
            ==> charges(value_of_v8(v, reg, ed).res is Ok, value_of_v8(v, reg, ed).ed, ed,
                2 + utf16_len(text)),
        v matches JsView::Number(_)
            ==> charges(value_of_v8(v, reg, ed).res is Ok, value_of_v8(v, reg, ed).ed, ed, 3),
        v matches JsView::Uint8Array(bytes)
            ==> (bytes.len() <= usize::MAX
                ==> charges(value_of_v8(v, reg, ed).res is Ok, value_of_v8(v, reg, ed).ed, ed,
                    3 + bytes.len())),
        v matches JsView::LuaObject(_, _)
            ==> charges(value_of_v8(v, reg, ed).res is Ok, value_of_v8(v, reg, ed).ed, ed, 3),
        v matches JsView::ArrayBuffer { .. }
            ==> charges_if_sent(value_of_v8(v, reg, ed).res is Ok, value_of_v8(v, reg, ed).ed, ed,
                3),
        v matches JsView::Ref(_)
            ==> charges_if_sent(value_of_v8(v, reg, ed).res is Ok, value_of_v8(v, reg, ed).ed, ed,
                3),
{
    if ed.after(1, "ProxiedV8Value -> <base overhead>"@) is Ok {
        let e1 = ed.after(1, "ProxiedV8Value -> <base overhead>"@)->Ok_0;
        if e1.after(1, "ProxiedV8Primitive -> <base overhead>"@) is Ok {
            let e2 = e1.after(1, "ProxiedV8Primitive -> <base overhead>"@)->Ok_0;
            let psuedo = psuedo_of_v8(v, reg, e2);
        }
    }
}

/// A list on its way into Luau is charged what its items are and, besides, two and one for each of
/// them. It is converted where they are and that much is left, unless it is nested too deeply.
pub proof fn law_list_in_luau_is_charged(items: Seq<V8View>, reg: RegistryView,
    ed: EmbedderDataContext)
    requires
        items.len() <= usize::MAX,
    ensures
        ({
            let inside = list_to_luau(items, 0, Seq::empty(), reg,
                (EmbedderDataContext { ed: ed.ed, depth: (ed.depth + 1) as usize, size: 0 }));
            let cost = 2 + items.len() + inside.ed.size as nat;
            &&& value_to_luau(V8View::List(items), reg,
                ed).res is Ok <==> ed.depth < MAX_PROXY_DEPTH && inside.res is Ok && has_left(
                ed,
                cost,
            )
            &&& charges_if_sent(value_to_luau(V8View::List(items), reg, ed).res is Ok,
                value_to_luau(V8View::List(items), reg, ed).ed, ed, cost)
        }),
{
    let p = V8View::List(items);
    if ed.after(1, "ProxiedV8Value -> <base overhead>"@) is Ok {
        let e1 = ed.after(1, "ProxiedV8Value -> <base overhead>"@)->Ok_0;
        let psuedo = psuedo_to_luau(p, reg, e1);
        if e1.after(1, "ProxiedV8PsuedoPrimitive -> <base overhead>"@) is Ok {
            let e2 = e1.after(1, "ProxiedV8PsuedoPrimitive -> <base overhead>"@)->Ok_0;
            if e2.after(items.len() as usize, "ProxiedV8PsuedoPrimitive -> LuaArray"@) is Ok {
                let e3 = e2.after(items.len() as usize,
                    "ProxiedV8PsuedoPrimitive -> LuaArray"@)->Ok_0;
                assert(ed.depth < MAX_PROXY_DEPTH ==> e3.child()
                    == (EmbedderDataContext { ed: ed.ed, depth: (ed.depth + 1) as usize,
                        size: 0 }));
            }
        }
    }
}

/// A map on its way into Luau is charged what its keys and values are and, besides, two and one for each
/// entry. It is converted where they are and that much is left, unless it is nested too deeply.
pub proof fn law_map_in_luau_is_charged(items: Seq<(V8View, V8View)>, reg: RegistryView,
    ed: EmbedderDataContext)
    requires
        items.len() <= usize::MAX,
    ensures
        ({
            let inside = dict_to_luau(items, 0, Seq::empty(), reg,
                (EmbedderDataContext { ed: ed.ed, depth: (ed.depth + 1) as usize, size: 0 }));
            let cost = 2 + items.len() + inside.ed.size as nat;
            &&& value_to_luau(V8View::Dict(items), reg,
                ed).res is Ok <==> ed.depth < MAX_PROXY_DEPTH && inside.res is Ok && has_left(
                ed,
                cost,
            )
            &&& charges_if_sent(value_to_luau(V8View::Dict(items), reg, ed).res is Ok,
                value_to_luau(V8View::Dict(items), reg, ed).ed, ed, cost)
        }),
{
    let p = V8View::Dict(items);
    if ed.after(1, "ProxiedV8Value -> <base overhead>"@) is Ok {
        let e1 = ed.after(1, "ProxiedV8Value -> <base overhead>"@)->Ok_0;
        let psuedo = psuedo_to_luau(p, reg, e1);
        if e1.after(1, "ProxiedV8PsuedoPrimitive -> <base overhead>"@) is Ok {
            let e2 = e1.after(1, "ProxiedV8PsuedoPrimitive -> <base overhead>"@)->Ok_0;
            if e2.after(items.len() as usize, "ProxiedV8PsuedoPrimitive -> LuaMap"@) is Ok {
                let e3 = e2.after(items.len() as usize,
                    "ProxiedV8PsuedoPrimitive -> LuaMap"@)->Ok_0;
                assert(ed.depth < MAX_PROXY_DEPTH ==> e3.child()
                    == (EmbedderDataContext { ed: ed.ed, depth: (ed.depth + 1) as usize,
                        size: 0 }));
            }
        }
    }
}

/// A list on its way into v8 is charged what its items are and, besides, two and one for each of
/// them. It is converted where they are and that much is left, unless it is nested too deeply.
pub proof fn law_list_in_v8_is_charged(items: Seq<V8View>, reg: RegistryView,
    ed: EmbedderDataContext)
    requires
        items.len() <= usize::MAX,
    ensures
        ({
            let inside = list_to_v8(items, 0, Seq::empty(), reg,
                (EmbedderDataContext { ed: ed.ed, depth: (ed.depth + 1) as usize, size: 0 }));
            let cost = 2 + items.len() + inside.ed.size as nat;
            &&& value_to_v8(V8View::List(items), reg, ed).res is Ok <==> ed.depth < MAX_PROXY_DEPTH
                && inside.res is Ok && has_left(
                ed,
                cost,
            )
            &&& charges_if_sent(value_to_v8(V8View::List(items), reg, ed).res is Ok,
                value_to_v8(V8View::List(items), reg, ed).ed, ed, cost)
        }),
{
    let p = V8View::List(items);
    if ed.after(1, "ProxiedV8Value -> <base overhead>"@) is Ok {
        let e1 = ed.after(1, "ProxiedV8Value -> <base overhead>"@)->Ok_0;
        let psuedo = psuedo_to_v8(p, reg, e1);
        if e1.after(1, "ProxiedV8PsuedoPrimitive -> <base overhead>"@) is Ok {
            let e2 = e1.after(1, "ProxiedV8PsuedoPrimitive -> <base overhead>"@)->Ok_0;
            if e2.after(items.len() as usize, "ProxiedV8PsuedoPrimitive -> V8Array"@) is Ok {
                let e3 = e2.after(items.len() as usize,
                    "ProxiedV8PsuedoPrimitive -> V8Array"@)->Ok_0;
                assert(ed.depth < MAX_PROXY_DEPTH ==> e3.child()
                    == (EmbedderDataContext { ed: ed.ed, depth: (ed.depth + 1) as usize,
                        size: 0 }));
            }
        }
    }
}

/// A map on its way into v8 is charged what its keys and values are and, besides, two and one for each
/// entry. It is converted where they are and that much is left, unless it is nested too deeply.
pub proof fn law_map_in_v8_is_charged(items: Seq<(V8View, V8View)>, reg: RegistryView,
    ed: EmbedderDataContext)
    requires
        items.len() <= usize::MAX,
    ensures
        ({
            let inside = dict_to_v8(items, 0, Seq::empty(), reg,
                (EmbedderDataContext { ed: ed.ed, depth: (ed.depth + 1) as usize, size: 0 }));
            let cost = 2 + items.len() + inside.ed.size as nat;
            &&& value_to_v8(V8View::Dict(items), reg, ed).res is Ok <==> ed.depth < MAX_PROXY_DEPTH
                && inside.res is Ok && has_left(
                ed,
                cost,
            )
            &&& charges_if_sent(value_to_v8(V8View::Dict(items), reg, ed).res is Ok,
                value_to_v8(V8View::Dict(items), reg, ed).ed, ed, cost)
        }),
{
    let p = V8View::Dict(items);
    if ed.after(1, "ProxiedV8Value -> <base overhead>"@) is Ok {
        let e1 = ed.after(1, "ProxiedV8Value -> <base overhead>"@)->Ok_0;
        let psuedo = psuedo_to_v8(p, reg, e1);
        if e1.after(1, "ProxiedV8PsuedoPrimitive -> <base overhead>"@) is Ok {
            let e2 = e1.after(1, "ProxiedV8PsuedoPrimitive -> <base overhead>"@)->Ok_0;
            if e2.after(items.len() as usize, "ProxiedV8PsuedoPrimitive -> V8Map"@) is Ok {
                let e3 = e2.after(items.len() as usize, "ProxiedV8PsuedoPrimitive -> V8Map"@)->Ok_0;
                assert(ed.depth < MAX_PROXY_DEPTH ==> e3.child()
                    == (EmbedderDataContext { ed: ed.ed, depth: (ed.depth + 1) as usize,
                        size: 0 }));
            }
        }
    }
}

/// A frozen array of Luau is charged what its elements are and, besides, one and as much as it is long.
/// It is converted where they are and that much is left, unless it is nested too deeply.
pub proof fn law_frozen_array_is_charged(
    handle: u64,
    metatable: Metatable,
    len: usize,
    items: Seq<(LuauView, LuauView)>,
    reg: RegistryView,
    ed: EmbedderDataContext,
)
    requires
        items.len() <= usize::MAX,
        metatable == Metatable::Array,
    ensures
        ({
            let inside = list_of_luau(items, 0, Seq::empty(), reg,
                (EmbedderDataContext { ed: ed.ed, depth: (ed.depth + 1) as usize, size: 0 }));
            let cost = 1 + len as nat + inside.ed.size as nat;
            &&& value_of_luau((LuauView::Table { handle, frozen: true, metatable, len,
                entries: items }), reg, ed).res is Ok <==> ed.depth < MAX_PROXY_DEPTH
                    && inside.res is Ok && has_left(
                ed,
                cost,
            )
            &&& charges_if_sent(value_of_luau((LuauView::Table { handle, frozen: true, metatable,
                len, entries: items }), reg, ed).res is Ok,
                    value_of_luau((LuauView::Table { handle, frozen: true, metatable, len,
                        entries: items }), reg, ed).ed, ed, cost)
        }),
{
    let v = (LuauView::Table { handle, frozen: true, metatable, len, entries: items });
    let at = ed.sibling();
    let psuedo = psuedo_of_luau(v, reg, at);
    if at.after(1, "ProxiedV8PsuedoPrimitive -> <base overhead>"@) is Ok {
        let e1 = at.after(1, "ProxiedV8PsuedoPrimitive -> <base overhead>"@)->Ok_0;
        if e1.after(len, "ProxiedV8PsuedoPrimitive -> LuaArray"@) is Ok {
            let e2 = e1.after(len, "ProxiedV8PsuedoPrimitive -> LuaArray"@)->Ok_0;
            assert(ed.depth < MAX_PROXY_DEPTH ==> e2.child()
                == (EmbedderDataContext { ed: ed.ed, depth: (ed.depth + 1) as usize, size: 0 }));
        }
    }
}

/// A frozen table of Luau that is no array is charged what its keys and values are and, besides, one and
/// one for each entry. It is converted where they are and that much is left, unless it is nested too
/// deeply.
pub proof fn law_frozen_table_is_charged(
    handle: u64,
    metatable: Metatable,
    len: usize,
    items: Seq<(LuauView, LuauView)>,
    reg: RegistryView,
    ed: EmbedderDataContext,
)
    requires
        items.len() <= usize::MAX,
        metatable != Metatable::Array,
    ensures
        ({
            let inside = dict_of_luau(items, 0, Seq::empty(), reg,
                (EmbedderDataContext { ed: ed.ed, depth: (ed.depth + 1) as usize, size: 0 }));
            let cost = 1 + items.len() + inside.ed.size as nat;
            &&& value_of_luau((LuauView::Table { handle, frozen: true, metatable, len,
                entries: items }), reg, ed).res is Ok <==> ed.depth < MAX_PROXY_DEPTH
                    && inside.res is Ok && has_left(
                ed,
                cost,
            )
            &&& charges_if_sent(value_of_luau((LuauView::Table { handle, frozen: true, metatable,
                len, entries: items }), reg, ed).res is Ok,
                    value_of_luau((LuauView::Table { handle, frozen: true, metatable, len,
                        entries: items }), reg, ed).ed, ed, cost)
        }),
{
    let v = (LuauView::Table { handle, frozen: true, metatable, len, entries: items });
    let at = ed.sibling();
    let psuedo = psuedo_of_luau(v, reg, at);
    if at.after(1, "ProxiedV8PsuedoPrimitive -> <base overhead>"@) is Ok {
        let e1 = at.after(1, "ProxiedV8PsuedoPrimitive -> <base overhead>"@)->Ok_0;
        assert(ed.depth < MAX_PROXY_DEPTH ==> e1.child()
            == (EmbedderDataContext { ed: ed.ed, depth: (ed.depth + 1) as usize, size: 0 }));
    }
}

/// An array of v8 that is no vector is charged what its elements are and, besides, three and as much as
/// it is long. It is converted where they are and that much is left, unless it is nested too deeply.
pub proof fn law_v8_array_is_charged(items: Seq<JsView>, reg: RegistryView, ed: EmbedderDataContext)
    requires
        items.len() <= usize::MAX,
        items.len() != 3,
    ensures
        ({
            let inside = list_of_v8(items, 0, Seq::empty(), reg,
                (EmbedderDataContext { ed: ed.ed, depth: (ed.depth + 1) as usize, size: 0 }));
            let cost = 3 + items.len() + inside.ed.size as nat;
            &&& value_of_v8(JsView::Array(items), reg,
                ed).res is Ok <==> ed.depth < MAX_PROXY_DEPTH && inside.res is Ok && has_left(
                ed,
                cost,
            )
            &&& charges_if_sent(value_of_v8(JsView::Array(items), reg, ed).res is Ok,
                value_of_v8(JsView::Array(items), reg, ed).ed, ed, cost)
        }),
{
    let v = JsView::Array(items);
    if ed.after(1, "ProxiedV8Value -> <base overhead>"@) is Ok {
        let e1 = ed.after(1, "ProxiedV8Value -> <base overhead>"@)->Ok_0;
        if e1.after(1, "ProxiedV8Primitive -> <base overhead>"@) is Ok {
            let e2 = e1.after(1, "ProxiedV8Primitive -> <base overhead>"@)->Ok_0;
            let psuedo = psuedo_of_v8(v, reg, e2);
            if e2.after(1, "ProxiedV8PsuedoPrimitive -> <base overhead>"@) is Ok {
                let e3 = e2.after(1, "ProxiedV8PsuedoPrimitive -> <base overhead>"@)->Ok_0;
                if e3.after(items.len() as usize, "ProxiedV8Primitive -> V8Array"@) is Ok {
                    let e4 = e3.after(items.len() as usize, "ProxiedV8Primitive -> V8Array"@)->Ok_0;
                    assert(ed.depth < MAX_PROXY_DEPTH ==> e4.child()
                        == (EmbedderDataContext { ed: ed.ed, depth: (ed.depth + 1) as usize,
                            size: 0 }));
                }
            }
        }
    }
}

/// A map of v8 is charged what its keys and values are and, besides, three and two for each entry. It is
/// converted where they are and that much is left, unless it is nested too deeply.
pub proof fn law_v8_map_is_charged(items: Seq<(JsView, JsView)>, reg: RegistryView,
    ed: EmbedderDataContext)
    requires
        items.len() <= usize::MAX,
    ensures
        ({
            let inside = dict_of_v8(items, 0, Seq::empty(), reg,
                (EmbedderDataContext { ed: ed.ed, depth: (ed.depth + 1) as usize, size: 0 }));
            let cost = 3 + 2 * items.len() + inside.ed.size as nat;
            &&& value_of_v8(JsView::MapObject(items), reg,
                ed).res is Ok <==> ed.depth < MAX_PROXY_DEPTH && inside.res is Ok && has_left(
                ed,
                cost,
            )
            &&& charges_if_sent(value_of_v8(JsView::MapObject(items), reg, ed).res is Ok,
                value_of_v8(JsView::MapObject(items), reg, ed).ed, ed, cost)
        }),
{
    let v = JsView::MapObject(items);
    if ed.after(1, "ProxiedV8Value -> <base overhead>"@) is Ok {
        let e1 = ed.after(1, "ProxiedV8Value -> <base overhead>"@)->Ok_0;
        if e1.after(1, "ProxiedV8Primitive -> <base overhead>"@) is Ok {
            let e2 = e1.after(1, "ProxiedV8Primitive -> <base overhead>"@)->Ok_0;
            let psuedo = psuedo_of_v8(v, reg, e2);
            if e2.after(1, "ProxiedV8PsuedoPrimitive -> <base overhead>"@) is Ok {
                let e3 = e2.after(1, "ProxiedV8PsuedoPrimitive -> <base overhead>"@)->Ok_0;
                if e3.after(crate::luau::embedder_api::grown(items.len() as usize,
                    items.len() as usize), "ProxiedV8Primitive -> V8Map"@) is Ok {
                    let e4 = e3.after(crate::luau::embedder_api::grown(items.len() as usize,
                        items.len() as usize), "ProxiedV8Primitive -> V8Map"@)->Ok_0;
                    assert(ed.depth < MAX_PROXY_DEPTH ==> e4.child()
                        == (EmbedderDataContext { ed: ed.ed, depth: (ed.depth + 1) as usize,
                            size: 0 }));
                }
            }
        }
    }
}

} // verus!
