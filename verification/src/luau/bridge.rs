//! The Luau (common) end of the proxy.

use vstd::prelude::*;

use crate::luau::embedder_api::EmbedderData;
use crate::luau::objreg::ObjRegistryLuau;
use crate::luau::value::{LuauValue, LuauView};
use crate::registry::{ObjectRef, RefKind};

verus! {

/// The client side state for proxying Lua values
pub struct ProxyLuaClient {
    /// The Luau objects that the other side holds.
    pub obj_registry: ObjRegistryLuau,
    /// What the embedding program allows.
    pub ed: EmbedderData,
}

impl ProxyLuaClient {
    /// The registry is in order.
    pub open spec fn wf(&self) -> bool {
        self.obj_registry.wf()
    }

    /// Creates a new proxy Lua client
    pub fn new(ed: EmbedderData) -> (r: Self)
        ensures
            r.wf(),
            r.ed == ed,
            r.obj_registry@.live == Map::<i64, crate::registry::Held>::empty(),
            r.obj_registry@.next == 1,
            r.obj_registry@.last == i64::MAX,
    {
        ProxyLuaClient { obj_registry: ObjRegistryLuau::new(), ed }
    }
}

/// What sort of Luau object is referred to.
#[derive(Clone, Copy, Debug, PartialEq, Eq, Structural)]
pub enum ObjectRegistryType {
    Table,
    Function,
    UserData,
    Buffer,
    Thread,
}

impl From<ObjectRegistryType> for &'static str {
    fn from(value: ObjectRegistryType) -> (r: Self) {
        value.typename()
    }
}

impl vstd::std_specs::convert::FromSpecImpl<ObjectRegistryType> for &'static str {
    open spec fn obeys_from_spec() -> bool {
        true
    }

    open spec fn from_spec(value: ObjectRegistryType) -> Self {
        value.written()
    }
}

impl ObjectRegistryType {
    /// The name of the sort, as it is written.
    pub open spec fn written(self) -> &'static str {
        match self {
            ObjectRegistryType::Table => "table",
            ObjectRegistryType::Function => "function",
            ObjectRegistryType::UserData => "userdata",
            ObjectRegistryType::Buffer => "buffer",
            ObjectRegistryType::Thread => "thread",
        }
    }

    /// The name of the sort.
    pub open spec fn name(self) -> Seq<char> {
        self.written()@
    }

    /// The name of the sort.
    pub fn typename(&self) -> (r: &'static str)
        ensures
            r == self.written(),
            r@ == self.name(),
    {
        match self {
            ObjectRegistryType::Table => "table",
            ObjectRegistryType::Function => "function",
            ObjectRegistryType::UserData => "userdata",
            ObjectRegistryType::Buffer => "buffer",
            ObjectRegistryType::Thread => "thread",
        }
    }

    /// The sort of an object, where it is one of Luau.
    pub open spec fn of_kind(kind: RefKind) -> Option<ObjectRegistryType> {
        match kind {
            RefKind::Table => Some(ObjectRegistryType::Table),
            RefKind::Function => Some(ObjectRegistryType::Function),
            RefKind::UserData => Some(ObjectRegistryType::UserData),
            RefKind::Buffer => Some(ObjectRegistryType::Buffer),
            RefKind::Thread => Some(ObjectRegistryType::Thread),
            _ => None,
        }
    }

    /// The sort of a value that can be referred to, and none for any other value.
    pub open spec fn of_value(v: LuauView) -> Option<ObjectRegistryType> {
        match v {
            LuauView::Table { .. } => Some(ObjectRegistryType::Table),
            LuauView::UserData { .. } => Some(ObjectRegistryType::UserData),
            LuauView::Buffer { .. } => Some(ObjectRegistryType::Buffer),
            LuauView::Ref(r) => ObjectRegistryType::of_kind(r.kind),
            _ => None,
        }
    }

    /// The sort of a value that can be referred to, and none for any other value.
    pub fn from_value(val: &LuauValue) -> (r: Option<Self>)
        ensures
            r == ObjectRegistryType::of_value(val@),
    {
        match val {
            LuauValue::Table { .. } => Some(ObjectRegistryType::Table),
            LuauValue::UserData { .. } => Some(ObjectRegistryType::UserData),
            LuauValue::Buffer { .. } => Some(ObjectRegistryType::Buffer),
            LuauValue::Ref(r) => match r.kind {
                RefKind::Table => Some(ObjectRegistryType::Table),
                RefKind::Function => Some(ObjectRegistryType::Function),
                RefKind::UserData => Some(ObjectRegistryType::UserData),
                RefKind::Buffer => Some(ObjectRegistryType::Buffer),
                RefKind::Thread => Some(ObjectRegistryType::Thread),
                _ => None,
            },
            _ => None,
        }
    }
}

/// The object that a value is, where it is one.
pub open spec fn object_of(v: LuauView) -> Option<ObjectRef> {
    match v {
        LuauView::Table { handle, .. } => Some(ObjectRef { kind: RefKind::Table, handle }),
        LuauView::UserData { handle, .. } => Some(ObjectRef { kind: RefKind::UserData, handle }),
        LuauView::Buffer { handle, .. } => Some(ObjectRef { kind: RefKind::Buffer, handle }),
        LuauView::Ref(r) => Some(r),
        _ => None,
    }
}

/// The object that a value is, where it is one.
pub fn object_ref(v: &LuauValue) -> (r: Option<ObjectRef>)
    ensures
        r == object_of(v@),
{
    match v {
        LuauValue::Table { handle, .. } => Some(
            ObjectRef { kind: RefKind::Table, handle: *handle },
        ),
        LuauValue::UserData { handle, .. } => Some(
            ObjectRef { kind: RefKind::UserData, handle: *handle },
        ),
        LuauValue::Buffer { handle, .. } => Some(
            ObjectRef { kind: RefKind::Buffer, handle: *handle },
        ),
        LuauValue::Ref(r) => Some(*r),
        _ => None,
    }
}

} // verus!
