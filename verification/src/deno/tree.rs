//! Luau values that are copied into v8.

use vstd::prelude::*;
use vstd::utf8::{decode_utf8, valid_utf8};

use crate::base::luau::{lua_pairs, lua_views, LuaView, ProxiedLuaValue};
use crate::base::proxy_bridge::{LuaProxyBridgeMessage, ObjectRegistryType};
use crate::luau::value::Number;
use crate::text::{join, text_of_utf8, utf8_complaint};
use crate::MAX_PROXY_DEPTH;

verus! {

/// How many Luau objects an isolate can refer to.
pub const MAX_REFS: usize = 500;

/// A Luau object that v8 refers to.
#[derive(Clone, Copy, Debug, PartialEq, Eq, Structural)]
pub struct LuaRef {
    pub typ: ObjectRegistryType,
    pub id: i64,
}

/// The Luau objects that v8 has referred to, each with a finalizer. An object keeps its slot when
/// it is finalized.
pub struct FinalizerList {
    list: Vec<LuaRef>,
}

impl Default for FinalizerList {
    fn default() -> (r: Self)
        ensures
            r.wf(),
            r@ == Seq::<LuaRef>::empty(),
    {
        FinalizerList::new()
    }
}

impl FinalizerList {
    /// The objects in the order in which they came.
    pub closed spec fn view(&self) -> Seq<LuaRef> {
        self.list@
    }

    /// No more objects than there may be.
    pub closed spec fn wf(&self) -> bool {
        self.list@.len() <= MAX_REFS
    }

    /// The list is no longer than it may be.
    pub proof fn lemma_wf(&self)
        requires
            self.wf(),
        ensures
            self@.len() <= MAX_REFS,
    {
    }

    /// No objects.
    pub fn new() -> (r: Self)
        ensures
            r.wf(),
            r@ == Seq::<LuaRef>::empty(),
    {
        FinalizerList { list: Vec::new() }
    }

    /// Takes a slot for an object, where there is one left.
    pub fn add(&mut self, obj: LuaRef) -> (r: Option<usize>)
        requires
            old(self).wf(),
        ensures
            final(self).wf(),
            r is Some <==> old(self)@.len() < MAX_REFS,
            r matches Some(slot) ==> slot == old(self)@.len() && final(self)@ == old(self)@.push(
                obj,
            ),
            r is None ==> final(self)@ == old(self)@,
    {
        if self.list.len() >= MAX_REFS {
            return None;
        }
        let slot = self.list.len();
        self.list.push(obj);
        Some(slot)
    }

    /// Whether an object has that slot.
    pub fn contains(&self, slot: usize) -> (r: bool)
        requires
            self.wf(),
        ensures
            r <==> slot < self@.len(),
    {
        slot < self.list.len()
    }

    /// What the bridge is asked when the object in that slot is finalized.
    pub fn finalized(&self, slot: usize) -> (r: Option<LuaProxyBridgeMessage>)
        requires
            self.wf(),
        ensures
            r is Some <==> slot < self@.len(),
            r matches Some(m) ==> (m matches LuaProxyBridgeMessage::DropObject { obj_type, obj_id }
                && self@[slot as int] == (LuaRef { typ: obj_type, id: obj_id })),
    {
        if slot < self.list.len() {
            let obj = self.list[slot];
            Some(LuaProxyBridgeMessage::DropObject { obj_type: obj.typ, obj_id: obj.id })
        } else {
            None
        }
    }
}

/// A value as it is made in v8.
#[derive(Debug, PartialEq, Eq)]
pub enum V8Tree {
    Null,
    Boolean(bool),
    Int32(i32),
    Number(Number),
    /// An array of three numbers.
    Triple(Number, Number, Number),
    String(String),
    Array(Vec<V8Tree>),
    /// An object on which the values are set one after the other.
    Object(Vec<(V8Tree, V8Tree)>),
    /// An object that stands for a Luau object, with the slot of its finalizer; for a function, the
    /// function that calls it.
    Lua { obj: LuaRef, slot: usize },
}

/// A value as it is made in v8.
#[verifier::ext_equal]
pub enum TreeView {
    Null,
    Boolean(bool),
    Int32(i32),
    Number(Number),
    Triple(Number, Number, Number),
    String(Seq<char>),
    Array(Seq<TreeView>),
    Object(Seq<(TreeView, TreeView)>),
    Lua { obj: LuaRef, slot: usize },
}

impl V8Tree {
    /// What the value is.
    pub open spec fn view(self) -> TreeView
        decreases self,
    {
        match self {
            V8Tree::Null => TreeView::Null,
            V8Tree::Boolean(b) => TreeView::Boolean(b),
            V8Tree::Int32(i) => TreeView::Int32(i),
            V8Tree::Number(n) => TreeView::Number(n),
            V8Tree::Triple(x, y, z) => TreeView::Triple(x, y, z),
            V8Tree::String(s) => TreeView::String(s@),
            V8Tree::Array(items) => TreeView::Array(
                Seq::new(
                    items@.len(),
                    |i: int|
                        if 0 <= i < items@.len() {
                            items@[i].view()
                        } else {
                            arbitrary()
                        },
                ),
            ),
            V8Tree::Object(entries) => TreeView::Object(
                Seq::new(
                    entries@.len(),
                    |i: int|
                        if 0 <= i < entries@.len() {
                            (entries@[i].0.view(), entries@[i].1.view())
                        } else {
                            arbitrary()
                        },
                ),
            ),
            V8Tree::Lua { obj, slot } => TreeView::Lua { obj, slot },
        }
    }
}

/// Several values.
pub open spec fn tree_views(s: Seq<V8Tree>) -> Seq<TreeView> {
    s.map_values(|v: V8Tree| v.view())
}

/// Several keys with their values.
pub open spec fn tree_pairs(s: Seq<(V8Tree, V8Tree)>) -> Seq<(TreeView, TreeView)> {
    s.map_values(|e: (V8Tree, V8Tree)| (e.0.view(), e.1.view()))
}

/// The objects that v8 refers to after a conversion, and its result or the text of its error.
pub struct TreeStep<T> {
    pub held: Seq<LuaRef>,
    pub res: Result<T, Seq<char>>,
}

/// The refusal of an object for which no slot is left.
pub open spec fn refs_reached(typ: ObjectRegistryType) -> Seq<char> {
    match typ {
        ObjectRegistryType::Function => "Maximum number of function references reached"@,
        ObjectRegistryType::Thread => "Maximum number of thread references reached"@,
        ObjectRegistryType::UserData => "Maximum number of userdata references reached"@,
        ObjectRegistryType::Buffer => "Maximum number of buffer references reached"@,
    }
}

/// What v8 gets for a Luau object.
pub open spec fn ref_tree(obj: LuaRef, held: Seq<LuaRef>) -> TreeStep<TreeView> {
    if held.len() < MAX_REFS {
        TreeStep {
            held: held.push(obj),
            res: Ok(TreeView::Lua { obj, slot: held.len() as usize }),
        }
    } else {
        TreeStep { held, res: Err(refs_reached(obj.typ)) }
    }
}

/// What v8 gets for a Luau value.
pub open spec fn tree_of(v: LuaView, held: Seq<LuaRef>, depth: nat) -> TreeStep<TreeView>
    decreases v, 1nat,
{
    if depth > MAX_PROXY_DEPTH {
        TreeStep { held, res: Err("Maximum proxy depth exceeded"@) }
    } else {
        match v {
            LuaView::Nil => TreeStep { held, res: Ok(TreeView::Null) },
            LuaView::Boolean(b) => TreeStep { held, res: Ok(TreeView::Boolean(b)) },
            LuaView::Integer(i) => TreeStep {
                held,
                res: Ok(
                    if i32::MIN <= i <= i32::MAX {
                        TreeView::Int32(i as i32)
                    } else {
                        TreeView::Number(Number::OfInt(i))
                    },
                ),
            },
            LuaView::Number(n) => TreeStep { held, res: Ok(TreeView::Number(n)) },
            LuaView::Vector(v) => TreeStep {
                held,
                res: Ok(
                    TreeView::Triple(
                        Number::OfSingle(v.x),
                        Number::OfSingle(v.y),
                        Number::OfSingle(v.z),
                    ),
                ),
            },
            LuaView::String(bytes) => TreeStep {
                held,
                res: if valid_utf8(bytes) {
                    Ok(TreeView::String(decode_utf8(bytes)))
                } else {
                    Err("Failed to convert string atom to UTF-8: "@ + utf8_complaint(bytes))
                },
            },
            LuaView::Array(items) => if items.len() > i32::MAX {
                TreeStep { held, res: Err("Array too large to proxy to V8"@) }
            } else {
                let all = trees_of(items, 0, Seq::empty(), held, depth + 1);
                match all.res {
                    Err(e) => TreeStep { held: all.held, res: Err(e) },
                    Ok(vs) => TreeStep { held: all.held, res: Ok(TreeView::Array(vs)) },
                }
            },
            LuaView::Table(entries) => {
                let all = tree_entries_of(entries, 0, Seq::empty(), held, depth + 1);
                match all.res {
                    Err(e) => TreeStep { held: all.held, res: Err(e) },
                    Ok(vs) => TreeStep { held: all.held, res: Ok(TreeView::Object(vs)) },
                }
            },
            LuaView::Function(id) => ref_tree(
                LuaRef { typ: ObjectRegistryType::Function, id },
                held,
            ),
            LuaView::Thread(id) => ref_tree(LuaRef { typ: ObjectRegistryType::Thread, id }, held),
            LuaView::UserData(id) => ref_tree(
                LuaRef { typ: ObjectRegistryType::UserData, id },
                held,
            ),
            LuaView::Buffer(id) => ref_tree(LuaRef { typ: ObjectRegistryType::Buffer, id }, held),
        }
    }
}

/// The values from the `i`th on, behind those that are there.
pub open spec fn trees_of(
    s: Seq<LuaView>,
    i: int,
    done: Seq<TreeView>,
    held: Seq<LuaRef>,
    depth: nat,
) -> TreeStep<Seq<TreeView>>
    decreases s, s.len() - i,
{
    if i < 0 || i >= s.len() {
        TreeStep { held, res: Ok(done) }
    } else {
        let one = tree_of(s[i], held, depth);
        match one.res {
            Err(e) => TreeStep { held: one.held, res: Err(e) },
            Ok(t) => trees_of(s, i + 1, done.push(t), one.held, depth),
        }
    }
}

/// The keys and values from the `i`th on, behind those that are there.
pub open spec fn tree_entries_of(
    s: Seq<(LuaView, LuaView)>,
    i: int,
    done: Seq<(TreeView, TreeView)>,
    held: Seq<LuaRef>,
    depth: nat,
) -> TreeStep<Seq<(TreeView, TreeView)>>
    decreases s, s.len() - i,
{
    if i < 0 || i >= s.len() {
        TreeStep { held, res: Ok(done) }
    } else {
        let key = tree_of(s[i].0, held, depth);
        match key.res {
            Err(e) => TreeStep { held: key.held, res: Err(e) },
            Ok(k) => {
                let value = tree_of(s[i].1, key.held, depth);
                match value.res {
                    Err(e) => TreeStep { held: value.held, res: Err(e) },
                    Ok(v) => tree_entries_of(s, i + 1, done.push((k, v)), value.held, depth),
                }
            },
        }
    }
}

/// What v8 gets for a Luau object.
fn ref_to_v8(obj: LuaRef, held: &mut FinalizerList) -> (r: Result<V8Tree, String>)
    requires
        old(held).wf(),
    ensures
        final(held).wf(),
        ({
            let want = ref_tree(obj, old(held)@);
            &&& final(held)@ == want.held
            &&& match (r, want.res) {
                (Ok(p), Ok(v)) => p@ == v,
                (Err(e), Err(t)) => e@ == t,
                _ => false,
            }
        }),
{
    match held.add(obj) {
        Some(slot) => Ok(V8Tree::Lua { obj, slot }),
        None => Err(
            match obj.typ {
                ObjectRegistryType::Function => {
                    "Maximum number of function references reached".to_owned()
                },
                ObjectRegistryType::Thread => {
                    "Maximum number of thread references reached".to_owned()
                },
                ObjectRegistryType::UserData => {
                    "Maximum number of userdata references reached".to_owned()
                },
                ObjectRegistryType::Buffer => {
                    "Maximum number of buffer references reached".to_owned()
                },
            },
        ),
    }
}

/// Several values in v8.
pub fn all_to_v8(items: &Vec<ProxiedLuaValue>, held: &mut FinalizerList, depth: usize) -> (r:
    Result<Vec<V8Tree>, String>)
    requires
        old(held).wf(),
        depth <= MAX_PROXY_DEPTH + 1,
    ensures
        final(held).wf(),
        ({
            let want = trees_of(lua_views(items@), 0, Seq::empty(), old(held)@, depth as nat);
            &&& final(held)@ == want.held
            &&& match (r, want.res) {
                (Ok(p), Ok(v)) => tree_views(p@) == v,
                (Err(e), Err(t)) => e@ == t,
                _ => false,
            }
        }),
    decreases items, 0nat,
{
    let ghost all = lua_views(items@);
    let ghost want = trees_of(all, 0, Seq::empty(), held@, depth as nat);
    let mut list: Vec<V8Tree> = Vec::new();
    assert(tree_views(list@) =~= Seq::empty());
    let mut i: usize = 0;
    while i < items.len()
        invariant
            i <= items@.len(),
            depth <= MAX_PROXY_DEPTH + 1,
            all == lua_views(items@),
            held.wf(),
            want == trees_of(all, 0, Seq::empty(), old(held)@, depth as nat),
            want == trees_of(all, i as int, tree_views(list@), held@, depth as nat),
        decreases items@.len() - i,
    {
        proof {
            assert(decreases_to!(items => items@));
            assert(decreases_to!(items@ => items@[i as int]));
        }
        let ghost before = list@;
        match proxy_to_v8(&items[i], held, depth) {
            Err(e) => return Err(e),
            Ok(v) => {
                list.push(v);
                assert(tree_views(list@) =~= tree_views(before).push(v@));
            },
        }
        i += 1;
    }
    Ok(list)
}

/// Several keys and values in v8.
fn entries_to_v8(
    entries: &Vec<(ProxiedLuaValue, ProxiedLuaValue)>,
    held: &mut FinalizerList,
    depth: usize,
) -> (r: Result<Vec<(V8Tree, V8Tree)>, String>)
    requires
        old(held).wf(),
        depth <= MAX_PROXY_DEPTH + 1,
    ensures
        final(held).wf(),
        ({
            let want = tree_entries_of(
                lua_pairs(entries@),
                0,
                Seq::empty(),
                old(held)@,
                depth as nat,
            );
            &&& final(held)@ == want.held
            &&& match (r, want.res) {
                (Ok(p), Ok(v)) => tree_pairs(p@) == v,
                (Err(e), Err(t)) => e@ == t,
                _ => false,
            }
        }),
    decreases entries, 0nat,
{
    let ghost all = lua_pairs(entries@);
    let ghost want = tree_entries_of(all, 0, Seq::empty(), held@, depth as nat);
    let mut list: Vec<(V8Tree, V8Tree)> = Vec::new();
    assert(tree_pairs(list@) =~= Seq::empty());
    let mut i: usize = 0;
    while i < entries.len()
        invariant
            i <= entries@.len(),
            depth <= MAX_PROXY_DEPTH + 1,
            all == lua_pairs(entries@),
            held.wf(),
            want == tree_entries_of(all, 0, Seq::empty(), old(held)@, depth as nat),
            want == tree_entries_of(all, i as int, tree_pairs(list@), held@, depth as nat),
        decreases entries@.len() - i,
    {
        proof {
            assert(decreases_to!(entries => entries@));
            assert(decreases_to!(entries@ => entries@[i as int]));
            assert(decreases_to!(entries@[i as int] => entries@[i as int].0));
            assert(decreases_to!(entries@[i as int] => entries@[i as int].1));
        }
        let ghost before = list@;
        let k = match proxy_to_v8(&entries[i].0, held, depth) {
            Err(e) => return Err(e),
            Ok(k) => k,
        };
        match proxy_to_v8(&entries[i].1, held, depth) {
            Err(e) => return Err(e),
            Ok(v) => {
                list.push((k, v));
                assert(tree_pairs(list@) =~= tree_pairs(before).push((k@, v@)));
            },
        }
        i += 1;
    }
    Ok(list)
}

/// What v8 gets for a Luau value. Each Luau object in it takes a slot, also where the conversion
/// fails behind it.
pub fn proxy_to_v8(value: &ProxiedLuaValue, held: &mut FinalizerList, depth: usize) -> (r: Result<
    V8Tree,
    String,
>)
    requires
        old(held).wf(),
    ensures
        final(held).wf(),
        ({
            let want = tree_of(value@, old(held)@, depth as nat);
            &&& final(held)@ == want.held
            &&& match (r, want.res) {
                (Ok(p), Ok(v)) => p@ == v,
                (Err(e), Err(t)) => e@ == t,
                _ => false,
            }
        }),
    decreases value, 1nat,
{
    if depth > MAX_PROXY_DEPTH {
        return Err("Maximum proxy depth exceeded".to_owned());
    }
    match value {
        ProxiedLuaValue::Nil => Ok(V8Tree::Null),
        ProxiedLuaValue::Boolean(b) => Ok(V8Tree::Boolean(*b)),
        ProxiedLuaValue::Integer(i) => {
            let i: i64 = *i;
            if i >= -2147483648 && i <= 2147483647 {
                Ok(V8Tree::Int32(i as i32))
            } else {
                Ok(V8Tree::Number(Number::OfInt(i)))
            }
        },
        ProxiedLuaValue::Number(n) => Ok(V8Tree::Number(*n)),
        ProxiedLuaValue::Vector(v) => Ok(
            V8Tree::Triple(
                Number::OfSingle(v.x),
                Number::OfSingle(v.y),
                Number::OfSingle(v.z),
            ),
        ),
        ProxiedLuaValue::String(bytes) => match text_of_utf8(bytes.as_slice()) {
            Ok(s) => Ok(V8Tree::String(s)),
            Err(e) => Err(join("Failed to convert string atom to UTF-8: ", &e)),
        },
        ProxiedLuaValue::Array(items) => {
            proof {
                assert(value@->Array_0 =~= lua_views(items@));
                assert(decreases_to!(value => value->Array_0));
            }
            if items.len() > 2147483647 {
                return Err("Array too large to proxy to V8".to_owned());
            }
            match all_to_v8(items, held, depth + 1) {
                Err(e) => Err(e),
                Ok(list) => {
                    let r = V8Tree::Array(list);
                    assert(r@->Array_0 =~= tree_views(list@));
                    Ok(r)
                },
            }
        },
        ProxiedLuaValue::Table(entries) => {
            proof {
                assert(value@->Table_0 =~= lua_pairs(entries@));
                assert(decreases_to!(value => value->Table_0));
            }
            match entries_to_v8(entries, held, depth + 1) {
                Err(e) => Err(e),
                Ok(list) => {
                    let r = V8Tree::Object(list);
                    assert(r@->Object_0 =~= tree_pairs(list@));
                    Ok(r)
                },
            }
        },
        ProxiedLuaValue::Function(id) => ref_to_v8(
            LuaRef { typ: ObjectRegistryType::Function, id: *id },
            held,
        ),
        ProxiedLuaValue::Thread(id) => ref_to_v8(
            LuaRef { typ: ObjectRegistryType::Thread, id: *id },
            held,
        ),
        ProxiedLuaValue::UserData(id) => ref_to_v8(
            LuaRef { typ: ObjectRegistryType::UserData, id: *id },
            held,
        ),
        ProxiedLuaValue::Buffer(id) => ref_to_v8(
            LuaRef { typ: ObjectRegistryType::Buffer, id: *id },
            held,
        ),
    }
}

/// The first list begins the second, and the second is no longer than it may be.
pub open spec fn grown(before: Seq<LuaRef>, after: Seq<LuaRef>) -> bool {
    &&& before.len() <= after.len() <= MAX_REFS
    &&& forall|j: int| 0 <= j < before.len() ==> before[j] == #[trigger] after[j]
}

/// Each Luau object in a value is the one in its slot.
pub open spec fn slotted(t: TreeView, held: Seq<LuaRef>) -> bool
    decreases t,
{
    match t {
        TreeView::Array(items) => forall|i: int|
            0 <= i < items.len() ==> slotted(#[trigger] items[i], held),
        TreeView::Object(entries) => forall|i: int|
            0 <= i < entries.len() ==> slotted((#[trigger] entries[i]).0, held) && slotted(
                entries[i].1,
                held,
            ),
        TreeView::Lua { obj, slot } => slot < held.len() && held[slot as int] == obj,
        _ => true,
    }
}

/// What is in its slot stays there.
proof fn lemma_slotted_grows(t: TreeView, before: Seq<LuaRef>, after: Seq<LuaRef>)
    requires
        slotted(t, before),
        grown(before, after),
    ensures
        slotted(t, after),
    decreases t,
{
    match t {
        TreeView::Array(items) => {
            assert forall|i: int| 0 <= i < items.len() implies slotted(
                #[trigger] items[i],
                after,
            ) by {
                lemma_slotted_grows(items[i], before, after);
            }
        },
        TreeView::Object(entries) => {
            assert forall|i: int| 0 <= i < entries.len() implies slotted(
                (#[trigger] entries[i]).0,
                after,
            ) && slotted(entries[i].1, after) by {
                assert(decreases_to!(entries => entries[i]));
                assert(decreases_to!(entries[i] => entries[i].0));
                assert(decreases_to!(entries[i] => entries[i].1));
                lemma_slotted_grows(entries[i].0, before, after);
                lemma_slotted_grows(entries[i].1, before, after);
            }
        },
        _ => {},
    }
}

/// Handing a value to v8 leaves every Luau object that v8 already refers to in its slot, keeps to
/// the number of slots there are, and puts each Luau object of the value in the slot that the
/// result names.
pub proof fn law_slots_are_kept(v: LuaView, held: Seq<LuaRef>, depth: nat)
    requires
        held.len() <= MAX_REFS,
    ensures
        grown(held, tree_of(v, held, depth).held),
        tree_of(v, held, depth).res matches Ok(t) ==> slotted(t, tree_of(v, held, depth).held),
    decreases v, 1nat,
{
    if depth <= MAX_PROXY_DEPTH {
        match v {
            LuaView::Array(items) => {
                lemma_trees_slotted(items, 0, Seq::empty(), held, depth + 1);
            },
            LuaView::Table(entries) => {
                lemma_entries_slotted(entries, 0, Seq::empty(), held, depth + 1);
            },
            _ => {},
        }
    }
}

/// The same of several values.
proof fn lemma_trees_slotted(
    s: Seq<LuaView>,
    i: int,
    done: Seq<TreeView>,
    held: Seq<LuaRef>,
    depth: nat,
)
    requires
        held.len() <= MAX_REFS,
        forall|j: int| 0 <= j < done.len() ==> slotted(#[trigger] done[j], held),
    ensures
        ({
            let all = trees_of(s, i, done, held, depth);
            &&& grown(held, all.held)
            &&& all.res matches Ok(vs) ==> forall|j: int|
                0 <= j < vs.len() ==> slotted(#[trigger] vs[j], all.held)
        }),
    decreases s, s.len() - i,
{
    if 0 <= i < s.len() {
        let one = tree_of(s[i], held, depth);
        law_slots_are_kept(s[i], held, depth);
        if let Ok(t) = one.res {
            let next = done.push(t);
            assert forall|j: int| 0 <= j < next.len() implies slotted(
                #[trigger] next[j],
                one.held,
            ) by {
                if j < done.len() {
                    lemma_slotted_grows(done[j], held, one.held);
                }
            }
            lemma_trees_slotted(s, i + 1, next, one.held, depth);
        }
    }
}

/// The same of several keys and values.
proof fn lemma_entries_slotted(
    s: Seq<(LuaView, LuaView)>,
    i: int,
    done: Seq<(TreeView, TreeView)>,
    held: Seq<LuaRef>,
    depth: nat,
)
    requires
        held.len() <= MAX_REFS,
        forall|j: int|
            0 <= j < done.len() ==> slotted((#[trigger] done[j]).0, held) && slotted(
                done[j].1,
                held,
            ),
    ensures
        ({
            let all = tree_entries_of(s, i, done, held, depth);
            &&& grown(held, all.held)
            &&& all.res matches Ok(vs) ==> forall|j: int|
                0 <= j < vs.len() ==> slotted((#[trigger] vs[j]).0, all.held) && slotted(
                    vs[j].1,
                    all.held,
                )
        }),
    decreases s, s.len() - i,
{
    if 0 <= i < s.len() {
        assert(decreases_to!(s => s[i]));
        assert(decreases_to!(s[i] => s[i].0));
        assert(decreases_to!(s[i] => s[i].1));
        let key = tree_of(s[i].0, held, depth);
        law_slots_are_kept(s[i].0, held, depth);
        if let Ok(k) = key.res {
            let value = tree_of(s[i].1, key.held, depth);
            law_slots_are_kept(s[i].1, key.held, depth);
            if let Ok(v) = value.res {
                let next = done.push((k, v));
                lemma_slotted_grows(k, key.held, value.held);
                assert forall|j: int| 0 <= j < next.len() implies slotted(
                    (#[trigger] next[j]).0,
                    value.held,
                ) && slotted(next[j].1, value.held) by {
                    if j < done.len() {
                        lemma_slotted_grows(done[j].0, held, value.held);
                        lemma_slotted_grows(done[j].1, held, value.held);
                    }
                }
                lemma_entries_slotted(s, i + 1, next, value.held, depth);
            }
        }
    }
}

} // verus!
