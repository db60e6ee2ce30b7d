//! What becomes of values that go from one state to the other.

use vstd::prelude::*;
use vstd::utf8::*;

use crate::denobridge::primitives::unknown_text;
use crate::luau::bridge::{object_of, ObjectRegistryType};
use crate::luau::embedder_api::EmbedderDataContext;
use crate::luau::value::{LuauView, Metatable, PayloadView, FRESH};
use crate::parallelluau::convert::{
    dict_of_state, dict_to_state, list_of_state, list_to_state, owned_by, psuedo_of_state,
    psuedo_to_state, unfrozen_array, unfrozen_table, value_of_state, value_to_state,
};
use crate::parallelluau::value::PLuauView;
use crate::registry::{ObjectRef, RegistryView};
use crate::MAX_PROXY_DEPTH;

verus! {

/// Whether a value is copied, with all that is in it, when it is found so deep.
pub open spec fn copyable(v: LuauView, depth: int) -> bool
    decreases v,
{
    match v {
        LuauView::Nil => true,
        LuauView::LightUserData(_) => true,
        LuauView::Boolean(_) => true,
        LuauView::Integer(_) => true,
        LuauView::Number(_) => true,
        LuauView::Vector(_) => true,
        LuauView::String(_) => true,
        LuauView::Other(_) => true,
        LuauView::Table { metatable, entries, .. } => {
            &&& metatable != Metatable::Other
            &&& depth < MAX_PROXY_DEPTH
            &&& forall|i: int|
                0 <= i < entries.len() ==> {
                    &&& copyable((#[trigger] entries[i]).1, depth + 1)
                    &&& metatable == Metatable::Absent ==> copyable(entries[i].0, depth + 1)
                }
        },
        _ => false,
    }
}

/// What is sent for a value that is copied.
pub open spec fn sent(v: LuauView) -> PLuauView
    decreases v,
{
    match v {
        LuauView::LightUserData(i) => if i == 0 {
            PLuauView::Null
        } else {
            PLuauView::Integer(i)
        },
        LuauView::Boolean(b) => PLuauView::Boolean(b),
        LuauView::Integer(i) => PLuauView::Integer(i),
        LuauView::Number(n) => PLuauView::Number(n),
        LuauView::Vector(x) => PLuauView::Vector(x),
        LuauView::String(bytes) => if valid_utf8(bytes) {
            PLuauView::String(decode_utf8(bytes))
        } else {
            PLuauView::Bytes(bytes)
        },
        LuauView::Other(text) => PLuauView::String(unknown_text(text)),
        LuauView::Table { metatable, entries, .. } => if metatable == Metatable::Array {
            PLuauView::List(
                Seq::new(
                    entries.len(),
                    |i: int|
                        if 0 <= i < entries.len() {
                            sent(entries[i].1)
                        } else {
                            arbitrary()
                        },
                ),
            )
        } else {
            PLuauView::Dict(
                Seq::new(
                    entries.len(),
                    |i: int|
                        if 0 <= i < entries.len() {
                            (sent(entries[i].0), sent(entries[i].1))
                        } else {
                            arbitrary()
                        },
                ),
            )
        },
        _ => PLuauView::Nil,
    }
}

/// What the other state gets for a value that is copied: the same value, with new tables in place
/// of the tables. A light userdata that is not null becomes its number, and a value of no known
/// sort becomes a text.
pub open spec fn received(v: LuauView) -> LuauView
    decreases v,
{
    match v {
        LuauView::LightUserData(i) => if i == 0 {
            LuauView::LightUserData(0)
        } else {
            LuauView::Integer(i)
        },
        LuauView::Other(text) => LuauView::String(encode_utf8(unknown_text(text))),
        LuauView::Table { metatable, entries, .. } => if metatable == Metatable::Array {
            unfrozen_array(
                Seq::new(
                    entries.len(),
                    |i: int|
                        if 0 <= i < entries.len() {
                            received(entries[i].1)
                        } else {
                            arbitrary()
                        },
                ),
            )
        } else {
            unfrozen_table(
                Seq::new(
                    entries.len(),
                    |i: int|
                        if 0 <= i < entries.len() {
                            (received(entries[i].0), received(entries[i].1))
                        } else {
                            arbitrary()
                        },
                ),
            )
        },
        _ => v,
    }
}

/// Two accounts of one payload size limit at one depth.
pub open spec fn same_place(a: EmbedderDataContext, b: EmbedderDataContext) -> bool {
    a.ed == b.ed && a.depth == b.depth
}

proof fn lemma_sent(v: LuauView, host: bool, reg: RegistryView, ed: EmbedderDataContext)
    requires
        copyable(v, ed.depth as int),
        ed.ed.max_payload_size is None,
    ensures
        ({
            let r = value_of_state(v, host, reg, ed);
            &&& r.reg == reg
            &&& same_place(r.ed, ed)
            &&& r.res == Ok::<PLuauView, Seq<char>>(sent(v))
        }),
    decreases v, 1nat,
{
    if v is Table {
        lemma_sent_table(v, host, reg, ed.sibling());
    }
}

proof fn lemma_sent_table(v: LuauView, host: bool, reg: RegistryView, ed: EmbedderDataContext)
    requires
        v is Table,
        copyable(v, ed.depth as int),
        ed.ed.max_payload_size is None,
    ensures
        ({
            let r = psuedo_of_state(v, host, reg, ed);
            &&& r.reg == reg
            &&& same_place(r.ed, ed)
            &&& r.res == Ok::<Option<PLuauView>, Seq<char>>(Some(sent(v)))
        }),
    decreases v, 0nat,
{
    let entries = v->Table_entries;
    let ed1 = ed.charged(1);
    assert(decreases_to!(v => v->Table_entries));
    if v->Table_metatable == Metatable::Array {
        let ed2 = ed1.charged(v->Table_len);
        lemma_sent_list(entries, 0, Seq::empty(), host, reg, ed2.child());
        let all = list_of_state(entries, 0, Seq::empty(), host, reg, ed2.child());
        assert(all.res->Ok_0 =~= sent(v)->List_0);
    } else {
        lemma_sent_dict(entries, 0, Seq::empty(), host, reg, ed1.child());
        let all = dict_of_state(entries, 0, Seq::empty(), host, reg, ed1.child());
        assert(all.res->Ok_0 =~= sent(v)->Dict_0);
    }
}

proof fn lemma_sent_list(
    s: Seq<(LuauView, LuauView)>,
    i: int,
    done: Seq<PLuauView>,
    host: bool,
    reg: RegistryView,
    ed: EmbedderDataContext,
)
    requires
        0 <= i <= s.len(),
        done.len() == i,
        forall|k: int| 0 <= k < i ==> #[trigger] done[k] == sent(s[k].1),
        forall|k: int| 0 <= k < s.len() ==> copyable((#[trigger] s[k]).1, ed.depth as int),
        ed.ed.max_payload_size is None,
    ensures
        ({
            let r = list_of_state(s, i, done, host, reg, ed);
            &&& r.reg == reg
            &&& same_place(r.ed, ed)
            &&& r.res is Ok
            &&& r.res->Ok_0.len() == s.len()
            &&& forall|k: int| 0 <= k < s.len() ==> #[trigger] r.res->Ok_0[k] == sent(s[k].1)
        }),
    decreases s, s.len() - i,
{
    if i < s.len() {
        assert(decreases_to!(s => s[i]));
        assert(decreases_to!(s[i] => s[i].1));
        assert(copyable(s[i].1, ed.depth as int));
        lemma_sent(s[i].1, host, reg, ed);
        let one = value_of_state(s[i].1, host, reg, ed);
        lemma_sent_list(s, i + 1, done.push(sent(s[i].1)), host, reg, one.ed);
    }
}

proof fn lemma_sent_dict(
    s: Seq<(LuauView, LuauView)>,
    i: int,
    done: Seq<(PLuauView, PLuauView)>,
    host: bool,
    reg: RegistryView,
    ed: EmbedderDataContext,
)
    requires
        0 <= i <= s.len(),
        done.len() == i,
        forall|k: int| 0 <= k < i ==> #[trigger] done[k] == (sent(s[k].0), sent(s[k].1)),
        forall|k: int|
            0 <= k < s.len() ==> copyable((#[trigger] s[k]).0, ed.depth as int) && copyable(
                s[k].1,
                ed.depth as int,
            ),
        ed.ed.max_payload_size is None,
    ensures
        ({
            let r = dict_of_state(s, i, done, host, reg, ed);
            &&& r.reg == reg
            &&& same_place(r.ed, ed)
            &&& r.res is Ok
            &&& r.res->Ok_0.len() == s.len()
            &&& forall|k: int|
                0 <= k < s.len() ==> #[trigger] r.res->Ok_0[k] == (sent(s[k].0), sent(s[k].1))
        }),
    decreases s, s.len() - i,
{
    if i < s.len() {
        assert(decreases_to!(s => s[i]));
        assert(decreases_to!(s[i] => s[i].0));
        assert(decreases_to!(s[i] => s[i].1));
        assert(copyable(s[i].0, ed.depth as int));
        assert(copyable(s[i].1, ed.depth as int));
        lemma_sent(s[i].0, host, reg, ed);
        let key = value_of_state(s[i].0, host, reg, ed);
        lemma_sent(s[i].1, host, reg, key.ed);
        let val = value_of_state(s[i].1, host, reg, key.ed);
        lemma_sent_dict(s, i + 1, done.push((sent(s[i].0), sent(s[i].1))), host, reg, val.ed);
    }
}

proof fn lemma_received(v: LuauView, host: bool, reg: RegistryView, ed: EmbedderDataContext)
    requires
        copyable(v, ed.depth as int),
        ed.ed.max_payload_size is None,
    ensures
        ({
            let r = value_to_state(sent(v), host, reg, ed);
            &&& same_place(r.ed, ed)
            &&& r.res == Ok::<LuauView, Seq<char>>(received(v))
        }),
    decreases v, 1nat,
{
    match v {
        LuauView::String(bytes) => {
            if valid_utf8(bytes) {
                decode_utf8_encode_utf8(bytes);
            }
        },
        LuauView::Table { .. } => {
            lemma_received_table(v, host, reg, ed.charged(1));
        },
        _ => {},
    }
}

proof fn lemma_received_table(v: LuauView, host: bool, reg: RegistryView, ed: EmbedderDataContext)
    requires
        v is Table,
        copyable(v, ed.depth as int),
        ed.ed.max_payload_size is None,
    ensures
        ({
            let r = psuedo_to_state(sent(v), host, reg, ed);
            &&& same_place(r.ed, ed)
            &&& r.res == Ok::<LuauView, Seq<char>>(received(v))
        }),
    decreases v, 0nat,
{
    let entries = v->Table_entries;
    assert(decreases_to!(v => v->Table_entries));
    let ed2 = ed.charged(1).charged(entries.len() as usize);
    if v->Table_metatable == Metatable::Array {
        let items = sent(v)->List_0;
        lemma_received_list(entries, items, 0, Seq::empty(), host, reg, ed2.child());
        let all = list_to_state(items, 0, Seq::empty(), host, reg, ed2.child());
        assert(unfrozen_array(all.res->Ok_0)->Table_entries =~= received(v)->Table_entries);
    } else {
        let items = sent(v)->Dict_0;
        lemma_received_dict(entries, items, 0, Seq::empty(), host, reg, ed2.child());
        let all = dict_to_state(items, 0, Seq::empty(), host, reg, ed2.child());
        assert(all.res->Ok_0 =~= received(v)->Table_entries);
    }
}

proof fn lemma_received_list(
    s: Seq<(LuauView, LuauView)>,
    items: Seq<PLuauView>,
    i: int,
    done: Seq<LuauView>,
    host: bool,
    reg: RegistryView,
    ed: EmbedderDataContext,
)
    requires
        0 <= i <= s.len(),
        items.len() == s.len(),
        forall|k: int| 0 <= k < s.len() ==> #[trigger] items[k] == sent(s[k].1),
        done.len() == i,
        forall|k: int| 0 <= k < i ==> #[trigger] done[k] == received(s[k].1),
        forall|k: int| 0 <= k < s.len() ==> copyable((#[trigger] s[k]).1, ed.depth as int),
        ed.ed.max_payload_size is None,
    ensures
        ({
            let r = list_to_state(items, i, done, host, reg, ed);
            &&& same_place(r.ed, ed)
            &&& r.res is Ok
            &&& r.res->Ok_0.len() == s.len()
            &&& forall|k: int| 0 <= k < s.len() ==> #[trigger] r.res->Ok_0[k] == received(s[k].1)
        }),
    decreases s, s.len() - i,
{
    if i < s.len() {
        assert(decreases_to!(s => s[i]));
        assert(decreases_to!(s[i] => s[i].1));
        assert(copyable(s[i].1, ed.depth as int));
        lemma_received(s[i].1, host, reg, ed);
        let one = value_to_state(items[i], host, reg, ed);
        lemma_received_list(s, items, i + 1, done.push(received(s[i].1)), host, reg, one.ed);
    }
}

proof fn lemma_received_dict(
    s: Seq<(LuauView, LuauView)>,
    items: Seq<(PLuauView, PLuauView)>,
    i: int,
    done: Seq<(LuauView, LuauView)>,
    host: bool,
    reg: RegistryView,
    ed: EmbedderDataContext,
)
    requires
        0 <= i <= s.len(),
        items.len() == s.len(),
        forall|k: int|
            0 <= k < s.len() ==> #[trigger] items[k] == (sent(s[k].0), sent(s[k].1)),
        done.len() == i,
        forall|k: int| 0 <= k < i ==> #[trigger] done[k] == (received(s[k].0), received(s[k].1)),
        forall|k: int|
            0 <= k < s.len() ==> copyable((#[trigger] s[k]).0, ed.depth as int) && copyable(
                s[k].1,
                ed.depth as int,
            ),
        ed.ed.max_payload_size is None,
    ensures
        ({
            let r = dict_to_state(items, i, done, host, reg, ed);
            &&& same_place(r.ed, ed)
            &&& r.res is Ok
            &&& r.res->Ok_0.len() == s.len()
            &&& forall|k: int|
                0 <= k < s.len() ==> #[trigger] r.res->Ok_0[k] == (
                    received(s[k].0),
                    received(s[k].1),
                )
        }),
    decreases s, s.len() - i,
{
    if i < s.len() {
        assert(decreases_to!(s => s[i]));
        assert(decreases_to!(s[i] => s[i].0));
        assert(decreases_to!(s[i] => s[i].1));
        assert(copyable(s[i].0, ed.depth as int));
        assert(copyable(s[i].1, ed.depth as int));
        assert(items[i] == (sent(s[i].0), sent(s[i].1)));
        lemma_received(s[i].0, host, reg, ed);
        let key = value_to_state(items[i].0, host, reg, ed);
        lemma_received(s[i].1, host, reg, key.ed);
        let val = value_to_state(items[i].1, host, reg, key.ed);
        lemma_received_dict(
            s,
            items,
            i + 1,
            done.push((received(s[i].0), received(s[i].1))),
            host,
            reg,
            val.ed,
        );
    }
}

/// Where payloads are not limited, a value that is copied arrives in the other state as
/// `received` says, and neither state hands out an object for it.
pub proof fn law_copied_value_arrives(
    v: LuauView,
    host: bool,
    from: RegistryView,
    to: RegistryView,
    ed: EmbedderDataContext,
    other: EmbedderDataContext,
)
    requires
        copyable(v, ed.depth as int),
        ed.ed.max_payload_size is None,
        same_place(ed, other),
    ensures
        value_of_state(v, host, from, ed).reg == from,
        value_of_state(v, host, from, ed).res matches Ok(p) && value_to_state(
            p,
            !host,
            to,
            other,
        ).res == Ok::<LuauView, Seq<char>>(received(v)),
{
    lemma_sent(v, host, from, ed);
    lemma_received(v, !host, to, other);
}

/// The userdata that stands for an object of the other state.
pub open spec fn stand_in(host: bool, typ: ObjectRegistryType, id: i64) -> LuauView {
    LuauView::UserData {
        handle: FRESH,
        payload: if host {
            PayloadView::HostRef(typ, id)
        } else {
            PayloadView::ChildRef(typ, id)
        },
    }
}

/// An object that was handed out comes home as itself: what the other state gets for it is sent
/// back as a reference to the same object, and that reference is the object.
pub proof fn law_object_comes_home(
    typ: ObjectRegistryType,
    id: i64,
    host: bool,
    own: RegistryView,
    other: RegistryView,
    ed: EmbedderDataContext,
)
    requires
        own.live.dom().contains(id),
        ed.ed.max_payload_size is None,
    ensures
        value_to_state(owned_by(host, typ, id), !host, other, ed).res == Ok::<LuauView, Seq<char>>(
            stand_in(host, typ, id),
        ),
        value_of_state(stand_in(host, typ, id), !host, other, ed).res == Ok::<
            PLuauView,
            Seq<char>,
        >(owned_by(host, typ, id)),
        value_to_state(owned_by(host, typ, id), host, own, ed).res == Ok::<LuauView, Seq<char>>(
            LuauView::Ref(own.live[id].obj),
        ),
{
    let v = stand_in(host, typ, id);
    let psuedo = psuedo_of_state(v, !host, other, ed.sibling());
    assert(psuedo.res == Ok::<Option<PLuauView>, Seq<char>>(None));
}

/// An object of a state is handed out, not copied: it is sent as a reference, and the registry
/// holds it under the number that the reference names.
pub proof fn law_object_is_handed_out(
    obj: ObjectRef,
    host: bool,
    reg: RegistryView,
    ed: EmbedderDataContext,
)
    requires
        reg.wf(),
        reg.admits(obj),
        ObjectRegistryType::of_kind(obj.kind) is Some,
        ed.ed.max_payload_size is None,
    ensures
        ({
            let r = value_of_state(LuauView::Ref(obj), host, reg, ed);
            let typ = ObjectRegistryType::of_kind(obj.kind)->Some_0;
            &&& r.res == Ok::<PLuauView, Seq<char>>(owned_by(host, typ, reg.id_for(obj)))
            &&& r.reg.live.dom().contains(reg.id_for(obj))
            &&& r.reg.live[reg.id_for(obj)].obj == obj
        }),
{
    let v = LuauView::Ref(obj);
    assert(object_of(v) == Some(obj));
    let psuedo = psuedo_of_state(v, host, reg, ed.sibling());
    assert(psuedo.res == Ok::<Option<PLuauView>, Seq<char>>(None));
}

} // verus!
