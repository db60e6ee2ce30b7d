//! What each kind of value of Luau becomes on its way into v8.

use vstd::prelude::*;
use vstd::utf8::{decode_utf8, valid_utf8};

use crate::base::luau::LuaView;
use crate::base::proxy_bridge::ObjectRegistryType;
use crate::deno::tree::{tree_of, LuaRef, TreeStep, TreeView, MAX_REFS};
use crate::luau::value::Number;
use crate::MAX_PROXY_DEPTH;

verus! {

/// What the values of Luau become: an integer keeps its value, as a number where it needs more than 32
/// bits, and a text its letters; a vector becomes its three components in their order; an object takes
/// the next slot and becomes a reference of the sort that it has.
pub proof fn law_luau_values_in_v8(v: LuaView, held: Seq<LuaRef>, depth: nat)
    requires
        depth <= MAX_PROXY_DEPTH,
    ensures
        v is Nil ==> tree_of(v, held, depth) == (TreeStep { held, res: Ok(TreeView::Null) }),
        v matches LuaView::Boolean(b) ==> tree_of(v, held, depth)
            == (TreeStep { held, res: Ok(TreeView::Boolean(b)) }),
        v matches LuaView::Integer(i)
            ==> (-0x8000_0000 <= i <= 0x7fff_ffff ==> tree_of(v, held, depth)
                == (TreeStep { held, res: Ok(TreeView::Int32(i as i32)) })),
        v matches LuaView::Integer(i)
            ==> (i < -0x8000_0000 || i > 0x7fff_ffff ==> tree_of(v, held, depth)
                == (TreeStep { held, res: Ok(TreeView::Number(Number::OfInt(i))) })),
        v matches LuaView::Number(n) ==> tree_of(v, held, depth)
            == (TreeStep { held, res: Ok(TreeView::Number(n)) }),
        v matches LuaView::Vector(x) ==> tree_of(v, held, depth)
            == (TreeStep { held, res: Ok(TreeView::Triple(Number::OfSingle(x.x),
                Number::OfSingle(x.y), Number::OfSingle(x.z))) }),
        v matches LuaView::String(bytes)
            ==> (valid_utf8(bytes) ==> tree_of(v, held, depth)
                == (TreeStep { held, res: Ok(TreeView::String(decode_utf8(bytes))) })),
        v matches LuaView::String(bytes)
            ==> (!valid_utf8(bytes) ==> tree_of(v, held, depth).res is Err
                && tree_of(v, held, depth).held == held),
        v matches LuaView::Function(id) ==> ({
            let obj = LuaRef { typ: ObjectRegistryType::Function, id };
            &&& held.len() < MAX_REFS ==> tree_of(v, held, depth) == (TreeStep {
                held: held.push(obj),
                res: Ok(TreeView::Lua { obj, slot: held.len() as usize }),
            })
            &&& held.len() >= MAX_REFS ==> tree_of(v, held, depth).res is Err
                && tree_of(v, held, depth).held == held
        }),
        v matches LuaView::Thread(id) ==> ({
            let obj = LuaRef { typ: ObjectRegistryType::Thread, id };
            &&& held.len() < MAX_REFS ==> tree_of(v, held, depth) == (TreeStep {
                held: held.push(obj),
                res: Ok(TreeView::Lua { obj, slot: held.len() as usize }),
            })
            &&& held.len() >= MAX_REFS ==> tree_of(v, held, depth).res is Err
                && tree_of(v, held, depth).held == held
        }),
        v matches LuaView::UserData(id) ==> ({
            let obj = LuaRef { typ: ObjectRegistryType::UserData, id };
            &&& held.len() < MAX_REFS ==> tree_of(v, held, depth) == (TreeStep {
                held: held.push(obj),
                res: Ok(TreeView::Lua { obj, slot: held.len() as usize }),
            })
            &&& held.len() >= MAX_REFS ==> tree_of(v, held, depth).res is Err
                && tree_of(v, held, depth).held == held
        }),
        v matches LuaView::Buffer(id) ==> ({
            let obj = LuaRef { typ: ObjectRegistryType::Buffer, id };
            &&& held.len() < MAX_REFS ==> tree_of(v, held, depth) == (TreeStep {
                held: held.push(obj),
                res: Ok(TreeView::Lua { obj, slot: held.len() as usize }),
            })
            &&& held.len() >= MAX_REFS ==> tree_of(v, held, depth).res is Err
                && tree_of(v, held, depth).held == held
        }),
{
}

/// Nothing that is nested deeper than the bound is converted, and no slot is taken.
pub proof fn law_nothing_deeper_than_the_bound(v: LuaView, held: Seq<LuaRef>, depth: nat)
    requires
        depth > MAX_PROXY_DEPTH,
    ensures
        tree_of(v, held, depth).res is Err,
        tree_of(v, held, depth).held == held,
{
}

} // verus!
