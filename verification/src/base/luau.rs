//! Luau values that are copied to another language, and the bridge that serves it.

use vstd::prelude::*;

use crate::base::objects::ObjectRegistry;
use crate::luau::value::{
    luau_pairs, LuauValue, LuauView, Metatable, Number, Payload, PayloadView, Stub, Vector3, FRESH,
};
use crate::registry::{ObjectRef, RefKind, RegistryView};
use crate::text::{
    copy_bytes, decimal, decimal_i64, decimal_int, decimal_u64, join, join3, join4, utf8_bytes,
};
use crate::MAX_PROXY_DEPTH;

verus! {

/// A Lua value that can now be easily proxied to another language
#[derive(Debug, PartialEq, Eq)]
pub enum ProxiedLuaValue {
    Nil,
    Boolean(bool),
    Integer(i64),
    Number(Number),
    String(Vec<u8>),
    Table(Vec<(ProxiedLuaValue, ProxiedLuaValue)>),
    Array(Vec<ProxiedLuaValue>),
    /// Function ID in the function registry
    Function(i64),
    /// UserData ID in the userdata registry
    UserData(i64),
    Vector(Vector3),
    /// Buffer ID in the buffer registry
    Buffer(i64),
    /// Thread ID in the thread registry
    Thread(i64),
}

/// A Lua value on its way to another language.
#[verifier::ext_equal]
pub enum LuaView {
    Nil,
    Boolean(bool),
    Integer(i64),
    Number(Number),
    String(Seq<u8>),
    Table(Seq<(LuaView, LuaView)>),
    Array(Seq<LuaView>),
    Function(i64),
    UserData(i64),
    Vector(Vector3),
    Buffer(i64),
    Thread(i64),
}

impl ProxiedLuaValue {
    /// What the value is.
    pub open spec fn view(self) -> LuaView
        decreases self,
    {
        match self {
            ProxiedLuaValue::Nil => LuaView::Nil,
            ProxiedLuaValue::Boolean(b) => LuaView::Boolean(b),
            ProxiedLuaValue::Integer(i) => LuaView::Integer(i),
            ProxiedLuaValue::Number(n) => LuaView::Number(n),
            ProxiedLuaValue::String(bytes) => LuaView::String(bytes@),
            ProxiedLuaValue::Table(entries) => LuaView::Table(
                Seq::new(
                    entries@.len(),
                    |i: int|
                        if 0 <= i < entries@.len() {
                            (entries@[i].0.view(), entries@[i].1.view())
                        } else {
                            arbitrary()
                        },
                ),
            ),
            ProxiedLuaValue::Array(items) => LuaView::Array(
                Seq::new(
                    items@.len(),
                    |i: int|
                        if 0 <= i < items@.len() {
                            items@[i].view()
                        } else {
                            arbitrary()
                        },
                ),
            ),
            ProxiedLuaValue::Function(id) => LuaView::Function(id),
            ProxiedLuaValue::UserData(id) => LuaView::UserData(id),
            ProxiedLuaValue::Vector(v) => LuaView::Vector(v),
            ProxiedLuaValue::Buffer(id) => LuaView::Buffer(id),
            ProxiedLuaValue::Thread(id) => LuaView::Thread(id),
        }
    }
}

/// Several values.
pub open spec fn lua_views(s: Seq<ProxiedLuaValue>) -> Seq<LuaView> {
    s.map_values(|v: ProxiedLuaValue| v.view())
}

/// Several keys with their values.
pub open spec fn lua_pairs(s: Seq<(ProxiedLuaValue, ProxiedLuaValue)>) -> Seq<(LuaView, LuaView)> {
    s.map_values(|e: (ProxiedLuaValue, ProxiedLuaValue)| (e.0.view(), e.1.view()))
}

/// The client side state for proxying Lua values
pub struct ProxyLuaClient {
    /// Whether the Lua state still exists.
    pub lua_alive: bool,
    pub func_registry: ObjectRegistry,
    pub thread_registry: ObjectRegistry,
    pub userdata_registry: ObjectRegistry,
    pub buffer_registry: ObjectRegistry,
}

/// What the registries of a client hold.
pub struct LuaRegs {
    pub func: RegistryView,
    pub thread: RegistryView,
    pub userdata: RegistryView,
    pub buffer: RegistryView,
}

/// The largest number of an object.
pub const LAST_ID: i64 = 2147483647;

impl ProxyLuaClient {
    /// What the registries hold.
    pub open spec fn regs(&self) -> LuaRegs {
        LuaRegs {
            func: self.func_registry@,
            thread: self.thread_registry@,
            userdata: self.userdata_registry@,
            buffer: self.buffer_registry@,
        }
    }

    /// The registries are in order.
    pub open spec fn wf(&self) -> bool {
        &&& self.func_registry.wf()
        &&& self.thread_registry.wf()
        &&& self.userdata_registry.wf()
        &&& self.buffer_registry.wf()
    }

    /// A client of a Lua state that exists, with empty registries.
    pub fn new() -> (r: Self)
        ensures
            r.wf(),
            r.lua_alive,
            ({
                let nothing = RegistryView { live: Map::empty(), next: 1, last: LAST_ID };
                r.regs() == (LuaRegs {
                    func: nothing,
                    thread: nothing,
                    userdata: nothing,
                    buffer: nothing,
                })
            }),
    {
        ProxyLuaClient {
            lua_alive: true,
            func_registry: ObjectRegistry::new(LAST_ID),
            thread_registry: ObjectRegistry::new(LAST_ID),
            userdata_registry: ObjectRegistry::new(LAST_ID),
            buffer_registry: ObjectRegistry::new(LAST_ID),
        }
    }
}

/// The registries after a conversion, and its result or the text of its error.
pub struct LuaStep<T> {
    pub regs: LuaRegs,
    pub res: Result<T, Seq<char>>,
}

/// The text of the refusal to copy anything nested so deeply.
pub open spec fn depth_exceeded() -> Seq<char> {
    "Maximum proxy depth of "@ + decimal(MAX_PROXY_DEPTH as nat) + " exceeded"@
}

/// The place of the first entry with that key, from the `k`th on, and the length where there is
/// none.
pub open spec fn place_of(s: Seq<(LuauView, LuauView)>, key: i64, k: int) -> int
    decreases s.len() - k,
{
    if k < 0 || k >= s.len() {
        s.len() as int
    } else if s[k].0 == LuauView::Integer(key) {
        k
    } else {
        place_of(s, key, k + 1)
    }
}

/// A reference to an object of a sort, or the refusal of it.
pub open spec fn object_of_lua(obj: ObjectRef, regs: LuaRegs) -> LuaStep<LuaView> {
    match obj.kind {
        RefKind::Function => if regs.func.admits(obj) {
            LuaStep {
                regs: LuaRegs { func: regs.func.added(obj), ..regs },
                res: Ok(LuaView::Function(regs.func.id_for(obj))),
            }
        } else {
            LuaStep { regs, res: Err("Function registry is full"@) }
        },
        RefKind::UserData => if regs.userdata.admits(obj) {
            LuaStep {
                regs: LuaRegs { userdata: regs.userdata.added(obj), ..regs },
                res: Ok(LuaView::UserData(regs.userdata.id_for(obj))),
            }
        } else {
            LuaStep { regs, res: Err("UserData registry is full"@) }
        },
        RefKind::Buffer => if regs.buffer.admits(obj) {
            LuaStep {
                regs: LuaRegs { buffer: regs.buffer.added(obj), ..regs },
                res: Ok(LuaView::Buffer(regs.buffer.id_for(obj))),
            }
        } else {
            LuaStep { regs, res: Err("Buffer registry is full"@) }
        },
        RefKind::Thread => if regs.thread.admits(obj) {
            LuaStep {
                regs: LuaRegs { thread: regs.thread.added(obj), ..regs },
                res: Ok(LuaView::Thread(regs.thread.id_for(obj))),
            }
        } else {
            LuaStep { regs, res: Err("Thread registry is full"@) }
        },
        _ => LuaStep {
            regs,
            res: Err("Cannot proxy Luau value of type "@ + LuauView::Ref(obj).typename()),
        },
    }
}

/// What a Luau value becomes on its way to another language.
pub open spec fn proxied_of_lua(v: LuauView, regs: LuaRegs, alive: bool, depth: nat) -> LuaStep<
    LuaView,
>
    decreases v, 1nat,
{
    if depth > MAX_PROXY_DEPTH {
        LuaStep { regs, res: Err(depth_exceeded()) }
    } else {
        match v {
            LuauView::Nil => LuaStep { regs, res: Ok(LuaView::Nil) },
            LuauView::LightUserData(i) => LuaStep { regs, res: Ok(LuaView::Integer(i)) },
            LuauView::Boolean(b) => LuaStep { regs, res: Ok(LuaView::Boolean(b)) },
            LuauView::Integer(i) => LuaStep { regs, res: Ok(LuaView::Integer(i)) },
            LuauView::Number(n) => LuaStep { regs, res: Ok(LuaView::Number(n)) },
            LuauView::String(bytes) => LuaStep { regs, res: Ok(LuaView::String(bytes)) },
            LuauView::Vector(x) => LuaStep { regs, res: Ok(LuaView::Vector(x)) },
            LuauView::Table { metatable, len, entries, .. } => if !alive {
                LuaStep { regs, res: Err("Table's Lua state has been dropped"@) }
            } else if metatable == Metatable::Array {
                let all = elements_of_lua(entries, len, 0, Seq::empty(), regs, alive, depth + 1);
                match all.res {
                    Err(e) => LuaStep { regs: all.regs, res: Err(e) },
                    Ok(items) => LuaStep { regs: all.regs, res: Ok(LuaView::Array(items)) },
                }
            } else {
                let all = entries_of_lua(entries, 0, Seq::empty(), regs, alive, depth + 1);
                match all.res {
                    Err(e) => LuaStep {
                        regs: all.regs,
                        res: Err("Failed to iterate table: "@ + e),
                    },
                    Ok(items) => LuaStep { regs: all.regs, res: Ok(LuaView::Table(items)) },
                }
            },
            LuauView::UserData { handle, .. } => object_of_lua(
                ObjectRef { kind: RefKind::UserData, handle },
                regs,
            ),
            LuauView::Buffer { handle, .. } => object_of_lua(
                ObjectRef { kind: RefKind::Buffer, handle },
                regs,
            ),
            LuauView::Ref(obj) => object_of_lua(obj, regs),
            LuauView::Stub(_) => LuaStep {
                regs,
                res: Err("Cannot proxy Luau value of type "@ + v.typename()),
            },
            LuauView::Error(text) => LuaStep {
                regs,
                res: Err("Cannot proxy Lua error value: "@ + text),
            },
            LuauView::Other(text) => if !alive {
                LuaStep { regs, res: Err("Lua state has been dropped"@) }
            } else {
                LuaStep {
                    regs,
                    res: Ok(
                        LuaView::String(
                            vstd::utf8::encode_utf8("unknown("@ + text + ")"@),
                        ),
                    ),
                }
            },
        }
    }
}

/// The text of the refusal of an element of an array.
pub open spec fn element_refused(i: int, e: Seq<char>) -> Seq<char> {
    "Failed to convert array element "@ + decimal(i as nat) + ": "@ + e
}

/// The elements of an array from the `i`th on, behind those that are there.
pub open spec fn elements_of_lua(
    s: Seq<(LuauView, LuauView)>,
    len: usize,
    i: int,
    done: Seq<LuaView>,
    regs: LuaRegs,
    alive: bool,
    depth: nat,
) -> LuaStep<Seq<LuaView>>
    decreases s, len - i,
{
    if i < 0 || i >= len {
        LuaStep { regs, res: Ok(done) }
    } else {
        let k = place_of(s, (i + 1) as i64, 0);
        let one = if 0 <= k < s.len() {
            proxied_of_lua(s[k].1, regs, alive, depth)
        } else if depth > MAX_PROXY_DEPTH {
            LuaStep { regs, res: Err(depth_exceeded()) }
        } else {
            LuaStep { regs, res: Ok(LuaView::Nil) }
        };
        match one.res {
            Err(e) => LuaStep { regs: one.regs, res: Err(element_refused(i, e)) },
            Ok(p) => elements_of_lua(s, len, i + 1, done.push(p), one.regs, alive, depth),
        }
    }
}

/// The entries of a table from the `i`th on, behind those that are there.
pub open spec fn entries_of_lua(
    s: Seq<(LuauView, LuauView)>,
    i: int,
    done: Seq<(LuaView, LuaView)>,
    regs: LuaRegs,
    alive: bool,
    depth: nat,
) -> LuaStep<Seq<(LuaView, LuaView)>>
    decreases s, s.len() - i,
{
    if i < 0 || i >= s.len() {
        LuaStep { regs, res: Ok(done) }
    } else {
        let key = proxied_of_lua(s[i].0, regs, alive, depth);
        match key.res {
            Err(e) => LuaStep {
                regs: key.regs,
                res: Err("Failed to convert table key: "@ + e),
            },
            Ok(k) => {
                let val = proxied_of_lua(s[i].1, key.regs, alive, depth);
                match val.res {
                    Err(e) => LuaStep {
                        regs: val.regs,
                        res: Err("Failed to convert table value: "@ + e),
                    },
                    Ok(p) => entries_of_lua(
                        s,
                        i + 1,
                        done.push((k, p)),
                        val.regs,
                        alive,
                        depth,
                    ),
                }
            },
        }
    }
}

/// The place of the first entry with that key, and the length where there is none.
fn find_entry(entries: &Vec<(LuauValue, LuauValue)>, key: i64) -> (r: usize)
    ensures
        r <= entries@.len(),
        r == place_of(luau_pairs(entries@), key, 0),
{
    let ghost all = luau_pairs(entries@);
    let mut k: usize = 0;
    while k < entries.len()
        invariant
            k <= entries@.len(),
            all == luau_pairs(entries@),
            place_of(all, key, 0) == place_of(all, key, k as int),
        decreases entries@.len() - k,
    {
        let hit = match &entries[k].0 {
            LuauValue::Integer(i) => *i == key,
            _ => false,
        };
        assert(all[k as int].0 == entries@[k as int].0@);
        if hit {
            return k;
        }
        k += 1;
    }
    k
}

/// Hands an object out once more.
fn object_from_lua(obj: ObjectRef, plc: &mut ProxyLuaClient) -> (r: Result<
    ProxiedLuaValue,
    String,
>)
    requires
        old(plc).wf(),
    ensures
        final(plc).wf(),
        final(plc).lua_alive == old(plc).lua_alive,
        final(plc).regs() == object_of_lua(obj, old(plc).regs()).regs,
        match (r, object_of_lua(obj, old(plc).regs()).res) {
            (Ok(p), Ok(v)) => p@ == v,
            (Err(e), Err(t)) => e@ == t,
            _ => false,
        },
{
    match obj.kind {
        RefKind::Function => match plc.func_registry.add(obj) {
            Some(id) => Ok(ProxiedLuaValue::Function(id)),
            None => Err("Function registry is full".to_owned()),
        },
        RefKind::UserData => match plc.userdata_registry.add(obj) {
            Some(id) => Ok(ProxiedLuaValue::UserData(id)),
            None => Err("UserData registry is full".to_owned()),
        },
        RefKind::Buffer => match plc.buffer_registry.add(obj) {
            Some(id) => Ok(ProxiedLuaValue::Buffer(id)),
            None => Err("Buffer registry is full".to_owned()),
        },
        RefKind::Thread => match plc.thread_registry.add(obj) {
            Some(id) => Ok(ProxiedLuaValue::Thread(id)),
            None => Err("Thread registry is full".to_owned()),
        },
        _ => Err(join("Cannot proxy Luau value of type ", LuauValue::of_ref(obj).typename())),
    }
}

/// The text of `element_refused`.
fn element_refusal(i: usize, e: &str) -> (r: String)
    ensures
        r@ == element_refused(i as int, e@),
{
    let n = decimal_u64(i as u64);
    join4("Failed to convert array element ", &n, ": ", e)
}

/// The elements of an array.
fn elements_from_lua(
    entries: &Vec<(LuauValue, LuauValue)>,
    len: usize,
    plc: &mut ProxyLuaClient,
    depth: usize,
) -> (r: Result<Vec<ProxiedLuaValue>, String>)
    requires
        old(plc).wf(),
        depth <= MAX_PROXY_DEPTH + 1,
    ensures
        final(plc).wf(),
        final(plc).lua_alive == old(plc).lua_alive,
        ({
            let want = elements_of_lua(
                luau_pairs(entries@),
                len,
                0,
                Seq::empty(),
                old(plc).regs(),
                old(plc).lua_alive,
                depth as nat,
            );
            &&& final(plc).regs() == want.regs
            &&& match (r, want.res) {
                (Ok(p), Ok(v)) => lua_views(p@) == v,
                (Err(e), Err(t)) => e@ == t,
                _ => false,
            }
        }),
    decreases entries, 0nat,
{
    let ghost all = luau_pairs(entries@);
    let ghost want = elements_of_lua(
        all,
        len,
        0,
        Seq::empty(),
        plc.regs(),
        plc.lua_alive,
        depth as nat,
    );
    let mut list: Vec<ProxiedLuaValue> = Vec::new();
    assert(lua_views(list@) =~= Seq::empty());
    let mut i: usize = 0;
    while i < len
        invariant
            i <= len,
            depth <= MAX_PROXY_DEPTH + 1,
            all == luau_pairs(entries@),
            plc.wf(),
            plc.lua_alive == old(plc).lua_alive,
            want == elements_of_lua(
                all,
                len,
                0,
                Seq::empty(),
                old(plc).regs(),
                old(plc).lua_alive,
                depth as nat,
            ),
            want == elements_of_lua(
                all,
                len,
                i as int,
                lua_views(list@),
                plc.regs(),
                plc.lua_alive,
                depth as nat,
            ),
        decreases len - i,
    {
        let ghost before = list@;
        let k = find_entry(entries, (i + 1) as i64);
        let one = if k < entries.len() {
            proof {
                assert(decreases_to!(entries => entries@));
                assert(decreases_to!(entries@ => entries@[k as int]));
                assert(decreases_to!(entries@[k as int] => entries@[k as int].1));
            }
            ProxiedLuaValue::from_lua_value(&entries[k].1, plc, depth)
        } else if depth > MAX_PROXY_DEPTH {
            Err(depth_text())
        } else {
            Ok(ProxiedLuaValue::Nil)
        };
        match one {
            Err(e) => return Err(element_refusal(i, &e)),
            Ok(v) => {
                list.push(v);
                assert(lua_views(list@) =~= lua_views(before).push(v@));
            },
        }
        i += 1;
    }
    Ok(list)
}

/// The text of `depth_exceeded`.
fn depth_text() -> (r: String)
    ensures
        r@ == depth_exceeded(),
{
    let n = decimal_u64(MAX_PROXY_DEPTH as u64);
    join3("Maximum proxy depth of ", &n, " exceeded")
}

/// The entries of a table.
fn entries_from_lua(
    entries: &Vec<(LuauValue, LuauValue)>,
    plc: &mut ProxyLuaClient,
    depth: usize,
) -> (r: Result<Vec<(ProxiedLuaValue, ProxiedLuaValue)>, String>)
    requires
        old(plc).wf(),
        depth <= MAX_PROXY_DEPTH + 1,
    ensures
        final(plc).wf(),
        final(plc).lua_alive == old(plc).lua_alive,
        ({
            let want = entries_of_lua(
                luau_pairs(entries@),
                0,
                Seq::empty(),
                old(plc).regs(),
                old(plc).lua_alive,
                depth as nat,
            );
            &&& final(plc).regs() == want.regs
            &&& match (r, want.res) {
                (Ok(p), Ok(v)) => lua_pairs(p@) == v,
                (Err(e), Err(t)) => e@ == t,
                _ => false,
            }
        }),
    decreases entries, 0nat,
{
    let ghost all = luau_pairs(entries@);
    let ghost want = entries_of_lua(
        all,
        0,
        Seq::empty(),
        plc.regs(),
        plc.lua_alive,
        depth as nat,
    );
    let mut list: Vec<(ProxiedLuaValue, ProxiedLuaValue)> = Vec::new();
    assert(lua_pairs(list@) =~= Seq::empty());
    let mut i: usize = 0;
    while i < entries.len()
        invariant
            i <= entries@.len(),
            depth <= MAX_PROXY_DEPTH + 1,
            all == luau_pairs(entries@),
            plc.wf(),
            plc.lua_alive == old(plc).lua_alive,
            want == entries_of_lua(
                all,
                0,
                Seq::empty(),
                old(plc).regs(),
                old(plc).lua_alive,
                depth as nat,
            ),
            want == entries_of_lua(
                all,
                i as int,
                lua_pairs(list@),
                plc.regs(),
                plc.lua_alive,
                depth as nat,
            ),
        decreases entries@.len() - i,
    {
        proof {
            assert(decreases_to!(entries => entries@));
            assert(decreases_to!(entries@ => entries@[i as int]));
            assert(decreases_to!(entries@[i as int] => entries@[i as int].0));
            assert(decreases_to!(entries@[i as int] => entries@[i as int].1));
        }
        let ghost before = list@;
        let key = match ProxiedLuaValue::from_lua_value(&entries[i].0, plc, depth) {
            Err(e) => return Err(join("Failed to convert table key: ", &e)),
            Ok(k) => k,
        };
        match ProxiedLuaValue::from_lua_value(&entries[i].1, plc, depth) {
            Err(e) => return Err(join("Failed to convert table value: ", &e)),
            Ok(v) => {
                list.push((key, v));
                assert(lua_pairs(list@) =~= lua_pairs(before).push((key@, v@)));
            },
        }
        i += 1;
    }
    Ok(list)
}

impl ProxiedLuaValue {
    /// Convert a Lua value to a proxied Lua value
    ///
    /// This may fail if the Lua state is no longer valid or if the maximum proxy depth is exceeded
    pub fn from_lua_value(value: &LuauValue, plc: &mut ProxyLuaClient, depth: usize) -> (r: Result<
        Self,
        String,
    >)
        requires
            old(plc).wf(),
        ensures
            final(plc).wf(),
            final(plc).lua_alive == old(plc).lua_alive,
            ({
                let want = proxied_of_lua(
                    value@,
                    old(plc).regs(),
                    old(plc).lua_alive,
                    depth as nat,
                );
                &&& final(plc).regs() == want.regs
                &&& match (r, want.res) {
                    (Ok(p), Ok(v)) => p@ == v,
                    (Err(e), Err(t)) => e@ == t,
                    _ => false,
                }
            }),
        decreases value, 1nat,
    {
        if depth > MAX_PROXY_DEPTH {
            return Err(depth_text());
        }
        match value {
            LuauValue::Nil => Ok(ProxiedLuaValue::Nil),
            LuauValue::LightUserData(i) => Ok(ProxiedLuaValue::Integer(*i)),
            LuauValue::Boolean(b) => Ok(ProxiedLuaValue::Boolean(*b)),
            LuauValue::Integer(i) => Ok(ProxiedLuaValue::Integer(*i)),
            LuauValue::Number(n) => Ok(ProxiedLuaValue::Number(*n)),
            LuauValue::String(bytes) => Ok(ProxiedLuaValue::String(copy_bytes(bytes.as_slice()))),
            LuauValue::Vector(v) => Ok(ProxiedLuaValue::Vector(*v)),
            LuauValue::Table { handle: _, frozen: _, metatable, len, entries } => {
                proof {
                    assert(value@->Table_entries =~= luau_pairs(entries@));
                    assert(decreases_to!(value => value->Table_entries));
                }
                if !plc.lua_alive {
                    return Err("Table's Lua state has been dropped".to_owned());
                }
                if *metatable == Metatable::Array {
                    match elements_from_lua(entries, *len, plc, depth + 1) {
                        Err(e) => Err(e),
                        Ok(items) => {
                            let r = ProxiedLuaValue::Array(items);
                            assert(r@->Array_0 =~= lua_views(items@));
                            Ok(r)
                        },
                    }
                } else {
                    match entries_from_lua(entries, plc, depth + 1) {
                        Err(e) => Err(join("Failed to iterate table: ", &e)),
                        Ok(items) => {
                            let r = ProxiedLuaValue::Table(items);
                            assert(r@->Table_0 =~= lua_pairs(items@));
                            Ok(r)
                        },
                    }
                }
            },
            LuauValue::UserData { handle, .. } => object_from_lua(
                ObjectRef { kind: RefKind::UserData, handle: *handle },
                plc,
            ),
            LuauValue::Buffer { handle, .. } => object_from_lua(
                ObjectRef { kind: RefKind::Buffer, handle: *handle },
                plc,
            ),
            LuauValue::Ref(obj) => object_from_lua(*obj, plc),
            LuauValue::Stub(_) => Err(join("Cannot proxy Luau value of type ", value.typename())),
            LuauValue::Error(text) => Err(join("Cannot proxy Lua error value: ", text)),
            LuauValue::Other(text) => {
                if !plc.lua_alive {
                    return Err("Lua state has been dropped".to_owned());
                }
                let s = join3("unknown(", text, ")");
                Ok(ProxiedLuaValue::String(utf8_bytes(&s)))
            },
        }
    }
}

/// A table that is made of some entries: not frozen, and without a metatable.
pub open spec fn new_table(entries: Seq<(LuauView, LuauView)>) -> LuauView {
    LuauView::Table {
        handle: FRESH,
        frozen: false,
        metatable: Metatable::Absent,
        len: 0,
        entries,
    }
}

/// An array that is made of some items: not frozen, and marked as an array.
pub open spec fn new_array(items: Seq<LuauView>) -> LuauView {
    LuauView::Table {
        handle: FRESH,
        frozen: false,
        metatable: Metatable::Array,
        len: items.len() as usize,
        entries: numbered(items),
    }
}

/// Some items under the keys 1, 2 and so on.
pub open spec fn numbered(items: Seq<LuauView>) -> Seq<(LuauView, LuauView)> {
    Seq::new(items.len(), |i: int| (LuauView::Integer((i + 1) as i64), items[i]))
}

/// What is said of a number that no object of a sort has.
pub open spec fn missing(what: Seq<char>, id: i64) -> Seq<char> {
    what + " ID "@ + decimal_int(id as int) + " not found in registry"@
}

/// The text of `missing`.
pub fn missing_text(what: &str, id: i64) -> (r: String)
    ensures
        r@ == missing(what@, id),
{
    let n = decimal_i64(id);
    join4(what, " ID ", &n, " not found in registry")
}

/// An object that is looked up by its number.
pub open spec fn looked_up(reg: RegistryView, what: Seq<char>, id: i64) -> Result<
    LuauView,
    Seq<char>,
> {
    if reg.live.dom().contains(id) {
        Ok(LuauView::Ref(reg.live[id].obj))
    } else {
        Err(missing(what, id))
    }
}

/// What a proxied value is in the state that it came from, or in a parallel one.
pub open spec fn lua_of_proxied(p: LuaView, regs: LuaRegs, parallel: bool) -> Result<
    LuauView,
    Seq<char>,
>
    decreases p, 1nat,
{
    match p {
        LuaView::Nil => Ok(LuauView::Nil),
        LuaView::Boolean(b) => Ok(LuauView::Boolean(b)),
        LuaView::Integer(i) => Ok(LuauView::Integer(i)),
        LuaView::Number(n) => Ok(LuauView::Number(n)),
        LuaView::String(bytes) => Ok(LuauView::String(bytes)),
        LuaView::Vector(v) => Ok(LuauView::Vector(v)),
        LuaView::Table(items) => match table_of_proxied(items, 0, Seq::empty(), regs, parallel) {
            Err(e) => Err(e),
            Ok(entries) => Ok(new_table(entries)),
        },
        LuaView::Array(items) => match array_of_proxied(items, 0, Seq::empty(), regs, parallel) {
            Err(e) => Err(e),
            Ok(vs) => Ok(new_array(vs)),
        },
        LuaView::Function(id) => if parallel {
            Ok(LuauView::Stub(Stub::LuaFunction(id)))
        } else {
            looked_up(regs.func, "Function"@, id)
        },
        LuaView::UserData(id) => if parallel {
            Err(not_parallel())
        } else {
            looked_up(regs.userdata, "UserData"@, id)
        },
        LuaView::Buffer(id) => if parallel {
            Ok(LuauView::UserData { handle: FRESH, payload: PayloadView::LuaBuffer(id) })
        } else {
            looked_up(regs.buffer, "Buffer"@, id)
        },
        LuaView::Thread(id) => if parallel {
            Err(not_parallel())
        } else {
            looked_up(regs.thread, "Thread"@, id)
        },
    }
}

/// The text of the refusal of a value that has no place in a parallel state.
pub open spec fn not_parallel() -> Seq<char> {
    "Cannot convert this ProxiedLuaValue to a parallel Lua value"@
}

/// The entries of a table from the `i`th on, behind those that are there.
pub open spec fn table_of_proxied(
    s: Seq<(LuaView, LuaView)>,
    i: int,
    done: Seq<(LuauView, LuauView)>,
    regs: LuaRegs,
    parallel: bool,
) -> Result<Seq<(LuauView, LuauView)>, Seq<char>>
    decreases s, s.len() - i,
{
    if i < 0 || i >= s.len() {
        Ok(done)
    } else {
        match lua_of_proxied(s[i].0, regs, parallel) {
            Err(e) => Err(e),
            Ok(k) => match lua_of_proxied(s[i].1, regs, parallel) {
                Err(e) => Err(e),
                Ok(v) => table_of_proxied(s, i + 1, done.push((k, v)), regs, parallel),
            },
        }
    }
}

/// The elements of an array from the `i`th on, behind those that are there.
pub open spec fn array_of_proxied(
    s: Seq<LuaView>,
    i: int,
    done: Seq<LuauView>,
    regs: LuaRegs,
    parallel: bool,
) -> Result<Seq<LuauView>, Seq<char>>
    decreases s, s.len() - i,
{
    if i < 0 || i >= s.len() {
        Ok(done)
    } else {
        match lua_of_proxied(s[i], regs, parallel) {
            Err(e) => Err(e),
            Ok(v) => array_of_proxied(s, i + 1, done.push(v), regs, parallel),
        }
    }
}

/// The entries of a table.
fn table_into_lua(
    items: &Vec<(ProxiedLuaValue, ProxiedLuaValue)>,
    plc: &ProxyLuaClient,
    parallel: bool,
) -> (r: Result<Vec<(LuauValue, LuauValue)>, String>)
    requires
        plc.wf(),
    ensures
        match (r, table_of_proxied(lua_pairs(items@), 0, Seq::empty(), plc.regs(), parallel)) {
            (Ok(p), Ok(v)) => luau_pairs(p@) == v,
            (Err(e), Err(t)) => e@ == t,
            _ => false,
        },
    decreases items, 0nat,
{
    let ghost all = lua_pairs(items@);
    let ghost want = table_of_proxied(all, 0, Seq::empty(), plc.regs(), parallel);
    let mut list: Vec<(LuauValue, LuauValue)> = Vec::new();
    assert(luau_pairs(list@) =~= Seq::empty());
    let mut i: usize = 0;
    while i < items.len()
        invariant
            i <= items@.len(),
            all == lua_pairs(items@),
            plc.wf(),
            want == table_of_proxied(all, 0, Seq::empty(), plc.regs(), parallel),
            want == table_of_proxied(all, i as int, luau_pairs(list@), plc.regs(), parallel),
        decreases items@.len() - i,
    {
        proof {
            assert(decreases_to!(items => items@));
            assert(decreases_to!(items@ => items@[i as int]));
            assert(decreases_to!(items@[i as int] => items@[i as int].0));
            assert(decreases_to!(items@[i as int] => items@[i as int].1));
        }
        let ghost before = list@;
        let key = match items[i].0.into_lua(plc, parallel) {
            Err(e) => return Err(e),
            Ok(k) => k,
        };
        match items[i].1.into_lua(plc, parallel) {
            Err(e) => return Err(e),
            Ok(v) => {
                list.push((key, v));
                assert(luau_pairs(list@) =~= luau_pairs(before).push((key@, v@)));
            },
        }
        i += 1;
    }
    Ok(list)
}

/// The elements of an array, each with its index.
fn array_into_lua(
    items: &Vec<ProxiedLuaValue>,
    plc: &ProxyLuaClient,
    parallel: bool,
) -> (r: Result<Vec<(LuauValue, LuauValue)>, String>)
    requires
        plc.wf(),
    ensures
        match (r, array_of_proxied(lua_views(items@), 0, Seq::empty(), plc.regs(), parallel)) {
            (Ok(p), Ok(v)) => luau_pairs(p@) == numbered(v),
            (Err(e), Err(t)) => e@ == t,
            _ => false,
        },
    decreases items, 0nat,
{
    let ghost all = lua_views(items@);
    let ghost want = array_of_proxied(all, 0, Seq::empty(), plc.regs(), parallel);
    let mut list: Vec<(LuauValue, LuauValue)> = Vec::new();
    let ghost mut done: Seq<LuauView> = Seq::empty();
    let mut i: usize = 0;
    while i < items.len()
        invariant
            i <= items@.len(),
            all == lua_views(items@),
            plc.wf(),
            done.len() == i,
            luau_pairs(list@) =~= numbered(done),
            want == array_of_proxied(all, 0, Seq::empty(), plc.regs(), parallel),
            want == array_of_proxied(all, i as int, done, plc.regs(), parallel),
        decreases items@.len() - i,
    {
        proof {
            assert(decreases_to!(items => items@));
            assert(decreases_to!(items@ => items@[i as int]));
        }
        let ghost before = list@;
        match items[i].into_lua(plc, parallel) {
            Err(e) => return Err(e),
            Ok(v) => {
                let key = LuauValue::Integer((i + 1) as i64);
                proof {
                    done = done.push(v@);
                }
                list.push((key, v));
                assert(luau_pairs(list@) =~= luau_pairs(before).push((key@, v@)));
            },
        }
        i += 1;
    }
    Ok(list)
}

/// An object that is looked up by its number.
fn look_up(reg: &ObjectRegistry, what: &str, id: i64) -> (r: Result<LuauValue, String>)
    requires
        reg.wf(),
    ensures
        match (r, looked_up(reg@, what@, id)) {
            (Ok(p), Ok(v)) => p@ == v,
            (Err(e), Err(t)) => e@ == t,
            _ => false,
        },
{
    match reg.get(id) {
        Some(obj) => Ok(LuauValue::of_ref(obj)),
        None => Err(missing_text(what, id)),
    }
}

impl ProxiedLuaValue {
    /// The value in the state that it came from, or in a parallel one.
    fn into_lua(&self, plc: &ProxyLuaClient, parallel: bool) -> (r: Result<LuauValue, String>)
        requires
            plc.wf(),
        ensures
            match (r, lua_of_proxied(self@, plc.regs(), parallel)) {
                (Ok(p), Ok(v)) => p@ == v,
                (Err(e), Err(t)) => e@ == t,
                _ => false,
            },
        decreases self, 1nat,
    {
        match self {
            ProxiedLuaValue::Nil => Ok(LuauValue::Nil),
            ProxiedLuaValue::Boolean(b) => Ok(LuauValue::Boolean(*b)),
            ProxiedLuaValue::Integer(i) => Ok(LuauValue::Integer(*i)),
            ProxiedLuaValue::Number(n) => Ok(LuauValue::Number(*n)),
            ProxiedLuaValue::String(bytes) => Ok(LuauValue::String(copy_bytes(bytes.as_slice()))),
            ProxiedLuaValue::Vector(v) => Ok(LuauValue::Vector(*v)),
            ProxiedLuaValue::Table(items) => {
                proof {
                    assert(self@->Table_0 =~= lua_pairs(items@));
                    assert(decreases_to!(self => self->Table_0));
                }
                match table_into_lua(items, plc, parallel) {
                    Err(e) => Err(e),
                    Ok(entries) => {
                        let r = LuauValue::Table {
                            handle: FRESH,
                            frozen: false,
                            metatable: Metatable::Absent,
                            len: 0,
                            entries,
                        };
                        assert(r@->Table_entries =~= luau_pairs(entries@));
                        Ok(r)
                    },
                }
            },
            ProxiedLuaValue::Array(items) => {
                proof {
                    assert(self@->Array_0 =~= lua_views(items@));
                    assert(decreases_to!(self => self->Array_0));
                }
                match array_into_lua(items, plc, parallel) {
                    Err(e) => Err(e),
                    Ok(entries) => {
                        let r = LuauValue::Table {
                            handle: FRESH,
                            frozen: false,
                            metatable: Metatable::Array,
                            len: entries.len(),
                            entries,
                        };
                        assert(r@->Table_entries =~= luau_pairs(entries@));
                        Ok(r)
                    },
                }
            },
            ProxiedLuaValue::Function(id) => if parallel {
                Ok(LuauValue::Stub(Stub::LuaFunction(*id)))
            } else {
                look_up(&plc.func_registry, "Function", *id)
            },
            ProxiedLuaValue::UserData(id) => if parallel {
                Err("Cannot convert this ProxiedLuaValue to a parallel Lua value".to_owned())
            } else {
                look_up(&plc.userdata_registry, "UserData", *id)
            },
            ProxiedLuaValue::Buffer(id) => if parallel {
                Ok(LuauValue::UserData { handle: FRESH, payload: Payload::LuaBuffer(*id) })
            } else {
                look_up(&plc.buffer_registry, "Buffer", *id)
            },
            ProxiedLuaValue::Thread(id) => if parallel {
                Err("Cannot convert this ProxiedLuaValue to a parallel Lua value".to_owned())
            } else {
                look_up(&plc.thread_registry, "Thread", *id)
            },
        }
    }

    /// Convert a proxied Lua value back to a Lua value
    ///
    /// Use `to_parallel_lua_value` to convert to a Luau value in another Luau VM (parallel Luau)
    pub fn to_lua_value(&self, plc: &ProxyLuaClient) -> (r: Result<LuauValue, String>)
        requires
            plc.wf(),
        ensures
            match (r, lua_of_proxied(self@, plc.regs(), false)) {
                (Ok(p), Ok(v)) => p@ == v,
                (Err(e), Err(t)) => e@ == t,
                _ => false,
            },
    {
        self.into_lua(plc, false)
    }

    /// Convert a proxied Lua value to a parallel Lua value
    ///
    /// Functions and buffers stay where they are: the parallel state gets what reaches them over
    /// the bridge.
    pub fn to_parallel_lua_value(&self, src_plc: &ProxyLuaClient) -> (r: Result<LuauValue, String>)
        requires
            src_plc.wf(),
        ensures
            match (r, lua_of_proxied(self@, src_plc.regs(), true)) {
                (Ok(p), Ok(v)) => p@ == v,
                (Err(e), Err(t)) => e@ == t,
                _ => false,
            },
    {
        self.into_lua(src_plc, true)
    }
}

} // verus!
