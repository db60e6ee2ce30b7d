//! What is charged for a copy to another state, and when it is refused for it.

use vstd::prelude::*;
use vstd::utf8::encode_utf8;

use crate::denobridge::law_cost::{charges, charges_if_sent, has_left};
use crate::luau::embedder_api::EmbedderDataContext;
use crate::luau::value::{LuauView, Metatable};
use crate::parallelluau::convert::{
    dict_of_state, dict_to_state, list_of_state, list_to_state, psuedo_of_state, psuedo_to_state,
    value_of_state, value_to_state,
};
use crate::parallelluau::value::PLuauView;
use crate::registry::RegistryView;
use crate::MAX_PROXY_DEPTH;

verus! {

/// What is charged for a value of a state: one, and as much as a text is long.
pub proof fn law_value_of_state_is_charged(v: LuauView, host: bool, reg: RegistryView,
    ed: EmbedderDataContext)
    ensures
        v is Nil ==> charges(value_of_state(v, host, reg, ed).res is Ok,
            value_of_state(v, host, reg, ed).ed, ed, 1),
        v matches LuauView::Boolean(_)
            ==> charges(value_of_state(v, host, reg, ed).res is Ok,
                value_of_state(v, host, reg, ed).ed, ed, 1),
        v matches LuauView::LightUserData(_)
            ==> charges(value_of_state(v, host, reg, ed).res is Ok,
                value_of_state(v, host, reg, ed).ed, ed, 1),
        v matches LuauView::Integer(_)
            ==> charges(value_of_state(v, host, reg, ed).res is Ok,
                value_of_state(v, host, reg, ed).ed, ed, 1),
        v matches LuauView::Number(_)
            ==> charges(value_of_state(v, host, reg, ed).res is Ok,
                value_of_state(v, host, reg, ed).ed, ed, 1),
        v matches LuauView::Vector(_)
            ==> charges(value_of_state(v, host, reg, ed).res is Ok,
                value_of_state(v, host, reg, ed).ed, ed, 1),
        v matches LuauView::String(bytes)
            ==> (bytes.len() <= usize::MAX
                ==> charges(value_of_state(v, host, reg, ed).res is Ok,
                    value_of_state(v, host, reg, ed).ed, ed, 1 + bytes.len())),
        v matches LuauView::Other(text)
            ==> (encode_utf8("unknown("@ + text + ")"@).len() <= usize::MAX
                ==> charges(value_of_state(v, host, reg, ed).res is Ok,
                    value_of_state(v, host, reg, ed).ed, ed,
                        1 + encode_utf8("unknown("@ + text + ")"@).len())),
        v matches LuauView::UserData { .. }
            ==> charges_if_sent(value_of_state(v, host, reg, ed).res is Ok,
                value_of_state(v, host, reg, ed).ed, ed, 1),
        v matches LuauView::Buffer { .. }
            ==> charges_if_sent(value_of_state(v, host, reg, ed).res is Ok,
                value_of_state(v, host, reg, ed).ed, ed, 1),
        v matches LuauView::Ref(_)
            ==> charges_if_sent(value_of_state(v, host, reg, ed).res is Ok,
                value_of_state(v, host, reg, ed).ed, ed, 1),
{
    let psuedo = psuedo_of_state(v, host, reg, ed.sibling());
}

/// What is charged for a value on its way into a state: one for a reference, two for any other, and as
/// much as a text is long.
pub proof fn law_value_in_state_is_charged(p: PLuauView, host: bool, reg: RegistryView,
    ed: EmbedderDataContext)
    ensures
        p is Null ==> charges(value_to_state(p, host, reg, ed).res is Ok,
            value_to_state(p, host, reg, ed).ed, ed, 2),
        p is Nil ==> charges(value_to_state(p, host, reg, ed).res is Ok,
            value_to_state(p, host, reg, ed).ed, ed, 2),
        p matches PLuauView::Boolean(_)
            ==> charges(value_to_state(p, host, reg, ed).res is Ok,
                value_to_state(p, host, reg, ed).ed, ed, 2),
        p matches PLuauView::Integer(_)
            ==> charges(value_to_state(p, host, reg, ed).res is Ok,
                value_to_state(p, host, reg, ed).ed, ed, 2),
        p matches PLuauView::String(s)
            ==> (encode_utf8(s).len() <= usize::MAX
                ==> charges(value_to_state(p, host, reg, ed).res is Ok,
                    value_to_state(p, host, reg, ed).ed, ed, 2 + encode_utf8(s).len())),
        p matches PLuauView::Number(_)
            ==> charges(value_to_state(p, host, reg, ed).res is Ok,
                value_to_state(p, host, reg, ed).ed, ed, 2),
        p matches PLuauView::Vector(_)
            ==> charges(value_to_state(p, host, reg, ed).res is Ok,
                value_to_state(p, host, reg, ed).ed, ed, 2),
        p matches PLuauView::Bytes(bytes)
            ==> (bytes.len() <= usize::MAX
                ==> charges(value_to_state(p, host, reg, ed).res is Ok,
                    value_to_state(p, host, reg, ed).ed, ed, 2 + bytes.len())),
        p matches PLuauView::SourceOwned(_, _)
            ==> charges_if_sent(value_to_state(p, host, reg, ed).res is Ok,
                value_to_state(p, host, reg, ed).ed, ed, 1),
        p matches PLuauView::TargetOwned(_, _)
            ==> charges_if_sent(value_to_state(p, host, reg, ed).res is Ok,
                value_to_state(p, host, reg, ed).ed, ed, 1),
{
    if ed.after(1, "ProxiedLuauValue -> <base overhead>"@) is Ok {
        let psuedo = psuedo_to_state(
            p,
            host,
            reg,
            ed.after(1, "ProxiedLuauValue -> <base overhead>"@)->Ok_0,
        );
    }
}

/// A list on its way into a state is charged what its items are and, besides, two and one for each of
/// them. It is converted where they are and that much is left, unless it is nested too deeply.
pub proof fn law_list_in_state_is_charged(items: Seq<PLuauView>, host: bool, reg: RegistryView,
    ed: EmbedderDataContext)
    requires
        items.len() <= usize::MAX,
    ensures
        ({
            let inside = list_to_state(items, 0, Seq::empty(), host, reg,
                (EmbedderDataContext { ed: ed.ed, depth: (ed.depth + 1) as usize, size: 0 }));
            let cost = 2 + items.len() + inside.ed.size as nat;
            &&& value_to_state(PLuauView::List(items), host, reg,
                ed).res is Ok <==> ed.depth < MAX_PROXY_DEPTH && inside.res is Ok && has_left(
                ed,
                cost,
            )
            &&& charges_if_sent(value_to_state(PLuauView::List(items), host, reg, ed).res is Ok,
                value_to_state(PLuauView::List(items), host, reg, ed).ed, ed, cost)
        }),
{
    let p = PLuauView::List(items);
    if ed.after(1, "ProxiedLuauValue -> <base overhead>"@) is Ok {
        let e1 = ed.after(1, "ProxiedLuauValue -> <base overhead>"@)->Ok_0;
        let psuedo = psuedo_to_state(p, host, reg, e1);
        if e1.after(1, "ProxiedLuauPsuedoPrimitive -> <base overhead>"@) is Ok {
            let e2 = e1.after(1, "ProxiedLuauPsuedoPrimitive -> <base overhead>"@)->Ok_0;
            if e2.after(items.len() as usize, "ProxiedLuauPsuedoPrimitive -> LuaArray"@) is Ok {
                let e3 = e2.after(items.len() as usize,
                    "ProxiedLuauPsuedoPrimitive -> LuaArray"@)->Ok_0;
                assert(ed.depth < MAX_PROXY_DEPTH ==> e3.child()
                    == (EmbedderDataContext { ed: ed.ed, depth: (ed.depth + 1) as usize,
                        size: 0 }));
            }
        }
    }
}

/// A map on its way into a state is charged what its keys and values are and, besides, two and one for
/// each entry. It is converted where they are and that much is left, unless it is nested too deeply.
pub proof fn law_map_in_state_is_charged(items: Seq<(PLuauView, PLuauView)>, host: bool,
    reg: RegistryView, ed: EmbedderDataContext)
    requires
        items.len() <= usize::MAX,
    ensures
        ({
            let inside = dict_to_state(items, 0, Seq::empty(), host, reg,
                (EmbedderDataContext { ed: ed.ed, depth: (ed.depth + 1) as usize, size: 0 }));
            let cost = 2 + items.len() + inside.ed.size as nat;
            &&& value_to_state(PLuauView::Dict(items), host, reg,
                ed).res is Ok <==> ed.depth < MAX_PROXY_DEPTH && inside.res is Ok && has_left(
                ed,
                cost,
            )
            &&& charges_if_sent(value_to_state(PLuauView::Dict(items), host, reg, ed).res is Ok,
                value_to_state(PLuauView::Dict(items), host, reg, ed).ed, ed, cost)
        }),
{
    let p = PLuauView::Dict(items);
    if ed.after(1, "ProxiedLuauValue -> <base overhead>"@) is Ok {
        let e1 = ed.after(1, "ProxiedLuauValue -> <base overhead>"@)->Ok_0;
        let psuedo = psuedo_to_state(p, host, reg, e1);
        if e1.after(1, "ProxiedLuauPsuedoPrimitive -> <base overhead>"@) is Ok {
            let e2 = e1.after(1, "ProxiedLuauPsuedoPrimitive -> <base overhead>"@)->Ok_0;
            if e2.after(items.len() as usize, "ProxiedLuauPsuedoPrimitive -> LuaMap"@) is Ok {
                let e3 = e2.after(items.len() as usize,
                    "ProxiedLuauPsuedoPrimitive -> LuaMap"@)->Ok_0;
                assert(ed.depth < MAX_PROXY_DEPTH ==> e3.child()
                    == (EmbedderDataContext { ed: ed.ed, depth: (ed.depth + 1) as usize,
                        size: 0 }));
            }
        }
    }
}

/// An array of a state is charged what its elements are and, besides, one and as much as it is long. It
/// is converted where they are and that much is left, unless it is nested too deeply.
pub proof fn law_array_of_state_is_charged(
    handle: u64,
    frozen: bool,
    metatable: Metatable,
    len: usize,
    items: Seq<(LuauView, LuauView)>,
    host: bool,
    reg: RegistryView,
    ed: EmbedderDataContext,
)
    requires
        items.len() <= usize::MAX,
        metatable == Metatable::Array,
    ensures
        ({
            let inside = list_of_state(items, 0, Seq::empty(), host, reg,
                (EmbedderDataContext { ed: ed.ed, depth: (ed.depth + 1) as usize, size: 0 }));
            let cost = 1 + len as nat + inside.ed.size as nat;
            &&& value_of_state((LuauView::Table { handle, frozen, metatable, len,
                entries: items }), host, reg, ed).res is Ok <==> ed.depth < MAX_PROXY_DEPTH
                    && inside.res is Ok && has_left(
                ed,
                cost,
            )
            &&& charges_if_sent(value_of_state((LuauView::Table { handle, frozen, metatable, len,
                entries: items }), host, reg, ed).res is Ok,
                    value_of_state((LuauView::Table { handle, frozen, metatable, len,
                        entries: items }), host, reg, ed).ed, ed, cost)
        }),
{
    let v = (LuauView::Table { handle, frozen, metatable, len, entries: items });
    let at = ed.sibling();
    let psuedo = psuedo_of_state(v, host, reg, at);
    if at.after(1, "ProxiedLuauPsuedoPrimitive -> <base overhead>"@) is Ok {
        let e1 = at.after(1, "ProxiedLuauPsuedoPrimitive -> <base overhead>"@)->Ok_0;
        if e1.after(len, "ProxiedLuauPsuedoPrimitive -> LuaArray"@) is Ok {
            let e2 = e1.after(len, "ProxiedLuauPsuedoPrimitive -> LuaArray"@)->Ok_0;
            assert(ed.depth < MAX_PROXY_DEPTH ==> e2.child()
                == (EmbedderDataContext { ed: ed.ed, depth: (ed.depth + 1) as usize, size: 0 }));
        }
    }
}

/// A table of a state without a metatable is charged what its keys and values are and, besides, one and
/// one for each entry. It is converted where they are and that much is left, unless it is nested too
/// deeply.
pub proof fn law_table_of_state_is_charged(
    handle: u64,
    frozen: bool,
    metatable: Metatable,
    len: usize,
    items: Seq<(LuauView, LuauView)>,
    host: bool,
    reg: RegistryView,
    ed: EmbedderDataContext,
)
    requires
        items.len() <= usize::MAX,
        metatable == Metatable::Absent,
    ensures
        ({
            let inside = dict_of_state(items, 0, Seq::empty(), host, reg,
                (EmbedderDataContext { ed: ed.ed, depth: (ed.depth + 1) as usize, size: 0 }));
            let cost = 1 + items.len() + inside.ed.size as nat;
            &&& value_of_state((LuauView::Table { handle, frozen, metatable, len,
                entries: items }), host, reg, ed).res is Ok <==> ed.depth < MAX_PROXY_DEPTH
                    && inside.res is Ok && has_left(
                ed,
                cost,
            )
            &&& charges_if_sent(value_of_state((LuauView::Table { handle, frozen, metatable, len,
                entries: items }), host, reg, ed).res is Ok,
                    value_of_state((LuauView::Table { handle, frozen, metatable, len,
                        entries: items }), host, reg, ed).ed, ed, cost)
        }),
{
    let v = (LuauView::Table { handle, frozen, metatable, len, entries: items });
    let at = ed.sibling();
    let psuedo = psuedo_of_state(v, host, reg, at);
    if at.after(1, "ProxiedLuauPsuedoPrimitive -> <base overhead>"@) is Ok {
        let e1 = at.after(1, "ProxiedLuauPsuedoPrimitive -> <base overhead>"@)->Ok_0;
        assert(ed.depth < MAX_PROXY_DEPTH ==> e1.child()
            == (EmbedderDataContext { ed: ed.ed, depth: (ed.depth + 1) as usize, size: 0 }));
    }
}

} // verus!
