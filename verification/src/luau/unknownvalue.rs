//! Objects that the host state does not know.

use vstd::prelude::*;

use crate::luau::bridge::ObjectRegistryType;
use crate::luau::objreg::LuauObjectRegistryID;

verus! {

/// Represents an unknown value in Luau that wasn't found in the object registry
#[derive(Debug, PartialEq, Eq)]
pub struct UnknownHostLuauValue {
    id: LuauObjectRegistryID,
    typ: ObjectRegistryType,
    err: String,
}

impl UnknownHostLuauValue {
    /// The number of the object.
    pub closed spec fn number(&self) -> i64 {
        self.id@
    }

    /// The sort of the object.
    pub closed spec fn sort(&self) -> ObjectRegistryType {
        self.typ
    }

    /// Why it was not found.
    pub closed spec fn reason(&self) -> Seq<char> {
        self.err@
    }

    /// Creates a new UnknownHostLuauValue with the specified ID and type
    pub fn new(id: LuauObjectRegistryID, typ: ObjectRegistryType, err: String) -> (r: Self)
        ensures
            r.number() == id@,
            r.sort() == typ,
            r.reason() == err@,
    {
        UnknownHostLuauValue { id, typ, err }
    }

    /// The number of the object.
    pub fn id(&self) -> (r: i64)
        ensures
            r == self.number(),
    {
        self.id.objid()
    }

    /// The name of the object's sort.
    pub fn typ(&self) -> (r: &'static str)
        ensures
            r@ == self.sort().name(),
    {
        self.typ.typename()
    }

    /// Why it was not found.
    pub fn error(&self) -> (r: &String)
        ensures
            r@ == self.reason(),
    {
        &self.err
    }
}

} // verus!
