//! The objects that a proxied value refers to.

use vstd::prelude::*;

use crate::denobridge::objreg::V8ObjectRegistryID;
use crate::denobridge::psuedoprimitive::ProxiedV8PsuedoPrimitive;
use crate::denobridge::value::{v8_pairs, v8_views, ProxiedV8Value, V8View};
use crate::luau::objreg::LuauObjectRegistryID;

verus! {

/// The numbers of some IDs.
pub open spec fn v8_numbers(ids: Seq<V8ObjectRegistryID>) -> Seq<i64> {
    ids.map_values(|id: V8ObjectRegistryID| id@)
}

/// The numbers of some IDs.
pub open spec fn luau_numbers(ids: Seq<LuauObjectRegistryID>) -> Seq<i64> {
    ids.map_values(|id: LuauObjectRegistryID| id@)
}

/// The v8 objects that a value refers to, in the order in which it holds them.
pub open spec fn owned_v8(p: V8View) -> Seq<i64>
    decreases p, 0nat,
{
    match p {
        V8View::V8Owned(_, id) => seq![id],
        V8View::List(items) => owned_v8_list(items, items.len()),
        V8View::Dict(items) => owned_v8_pairs(items, items.len()),
        _ => Seq::empty(),
    }
}

/// The v8 objects that the first `n` values refer to.
pub open spec fn owned_v8_list(s: Seq<V8View>, n: nat) -> Seq<i64>
    decreases s, n,
{
    if n == 0 || n > s.len() {
        Seq::empty()
    } else {
        owned_v8_list(s, (n - 1) as nat) + owned_v8(s[n - 1])
    }
}

/// The v8 objects that the first `n` keys and values refer to.
pub open spec fn owned_v8_pairs(s: Seq<(V8View, V8View)>, n: nat) -> Seq<i64>
    decreases s, n,
{
    if n == 0 || n > s.len() {
        Seq::empty()
    } else {
        owned_v8_pairs(s, (n - 1) as nat) + owned_v8(s[n - 1].0) + owned_v8(s[n - 1].1)
    }
}

/// The Luau objects that a value refers to, in the order in which it holds them.
pub open spec fn owned_luau(p: V8View) -> Seq<i64>
    decreases p, 0nat,
{
    match p {
        V8View::SourceOwned(_, id) => seq![id],
        V8View::List(items) => owned_luau_list(items, items.len()),
        V8View::Dict(items) => owned_luau_pairs(items, items.len()),
        _ => Seq::empty(),
    }
}

/// The Luau objects that the first `n` values refer to.
pub open spec fn owned_luau_list(s: Seq<V8View>, n: nat) -> Seq<i64>
    decreases s, n,
{
    if n == 0 || n > s.len() {
        Seq::empty()
    } else {
        owned_luau_list(s, (n - 1) as nat) + owned_luau(s[n - 1])
    }
}

/// The Luau objects that the first `n` keys and values refer to.
pub open spec fn owned_luau_pairs(s: Seq<(V8View, V8View)>, n: nat) -> Seq<i64>
    decreases s, n,
{
    if n == 0 || n > s.len() {
        Seq::empty()
    } else {
        owned_luau_pairs(s, (n - 1) as nat) + owned_luau(s[n - 1].0) + owned_luau(s[n - 1].1)
    }
}

/// The objects that several values refer to.
pub fn owned_by_all(items: &Vec<ProxiedV8Value>) -> (r: (
    Vec<V8ObjectRegistryID>,
    Vec<LuauObjectRegistryID>,
))
    ensures
        v8_numbers(r.0@) == owned_v8_list(v8_views(items@), items@.len()),
        luau_numbers(r.1@) == owned_luau_list(v8_views(items@), items@.len()),
    decreases items, 0nat,
{
    let ghost all = v8_views(items@);
    let mut v8_ids: Vec<V8ObjectRegistryID> = Vec::new();
    let mut luau_ids: Vec<LuauObjectRegistryID> = Vec::new();
    assert(v8_numbers(v8_ids@) =~= Seq::empty());
    assert(luau_numbers(luau_ids@) =~= Seq::empty());
    let mut i: usize = 0;
    while i < items.len()
        invariant
            i <= items@.len(),
            all == v8_views(items@),
            v8_numbers(v8_ids@) == owned_v8_list(all, i as nat),
            luau_numbers(luau_ids@) == owned_luau_list(all, i as nat),
        decreases items@.len() - i,
    {
        proof {
            assert(decreases_to!(items => items@));
            assert(decreases_to!(items@ => items@[i as int]));
        }
        let ghost v8_before = v8_ids@;
        let ghost luau_before = luau_ids@;
        let mut owned = items[i].get_owned_object_ids();
        let ghost v8_new = owned.0@;
        let ghost luau_new = owned.1@;
        v8_ids.append(&mut owned.0);
        luau_ids.append(&mut owned.1);
        assert(v8_numbers(v8_ids@) =~= v8_numbers(v8_before) + v8_numbers(v8_new));
        assert(luau_numbers(luau_ids@) =~= luau_numbers(luau_before) + luau_numbers(luau_new));
        i += 1;
    }
    (v8_ids, luau_ids)
}

/// The objects that several keys and values refer to.
fn owned_by_pairs(items: &Vec<(ProxiedV8Value, ProxiedV8Value)>) -> (r: (
    Vec<V8ObjectRegistryID>,
    Vec<LuauObjectRegistryID>,
))
    ensures
        v8_numbers(r.0@) == owned_v8_pairs(v8_pairs(items@), items@.len()),
        luau_numbers(r.1@) == owned_luau_pairs(v8_pairs(items@), items@.len()),
    decreases items, 0nat,
{
    let ghost all = v8_pairs(items@);
    let mut v8_ids: Vec<V8ObjectRegistryID> = Vec::new();
    let mut luau_ids: Vec<LuauObjectRegistryID> = Vec::new();
    assert(v8_numbers(v8_ids@) =~= Seq::empty());
    assert(luau_numbers(luau_ids@) =~= Seq::empty());
    let mut i: usize = 0;
    while i < items.len()
        invariant
            i <= items@.len(),
            all == v8_pairs(items@),
            v8_numbers(v8_ids@) == owned_v8_pairs(all, i as nat),
            luau_numbers(luau_ids@) == owned_luau_pairs(all, i as nat),
        decreases items@.len() - i,
    {
        proof {
            assert(decreases_to!(items => items@));
            assert(decreases_to!(items@ => items@[i as int]));
            assert(decreases_to!(items@[i as int] => items@[i as int].0));
            assert(decreases_to!(items@[i as int] => items@[i as int].1));
        }
        let ghost v8_before = v8_ids@;
        let ghost luau_before = luau_ids@;
        let mut key = items[i].0.get_owned_object_ids();
        let mut val = items[i].1.get_owned_object_ids();
        let ghost new = (key.0@, val.0@, key.1@, val.1@);
        v8_ids.append(&mut key.0);
        v8_ids.append(&mut val.0);
        luau_ids.append(&mut key.1);
        luau_ids.append(&mut val.1);
        assert(v8_numbers(v8_ids@) =~= v8_numbers(v8_before) + v8_numbers(new.0) + v8_numbers(
            new.1,
        ));
        assert(luau_numbers(luau_ids@) =~= luau_numbers(luau_before) + luau_numbers(new.2)
            + luau_numbers(new.3));
        i += 1;
    }
    (v8_ids, luau_ids)
}

impl ProxiedV8Value {
    /// Returns the list of owned object ids contained within this ProxiedV8Value
    pub fn get_owned_object_ids(&self) -> (r: (Vec<V8ObjectRegistryID>, Vec<LuauObjectRegistryID>))
        ensures
            v8_numbers(r.0@) == owned_v8(self@),
            luau_numbers(r.1@) == owned_luau(self@),
        decreases self, 0nat,
    {
        let mut v8_ids: Vec<V8ObjectRegistryID> = Vec::new();
        let mut luau_ids: Vec<LuauObjectRegistryID> = Vec::new();
        match self {
            ProxiedV8Value::Psuedoprimitive(p) => match p {
                ProxiedV8PsuedoPrimitive::StaticList(items) => {
                    proof {
                        assert(self@->List_0 =~= v8_views(items@));
                        assert(decreases_to!(self => self->Psuedoprimitive_0));
                        assert(decreases_to!(p => p->StaticList_0));
                    }
                    return owned_by_all(items);
                },
                ProxiedV8PsuedoPrimitive::StaticMap(items) => {
                    proof {
                        assert(self@->Dict_0 =~= v8_pairs(items@));
                        assert(decreases_to!(self => self->Psuedoprimitive_0));
                        assert(decreases_to!(p => p->StaticMap_0));
                    }
                    return owned_by_pairs(items);
                },
                _ => {},
            },
            ProxiedV8Value::V8OwnedObject(o) => v8_ids.push(o.1),
            ProxiedV8Value::SourceOwnedObject(o) => luau_ids.push(o.1),
            ProxiedV8Value::Primitive(_) => {},
        }
        assert(v8_numbers(v8_ids@) =~= owned_v8(self@));
        assert(luau_numbers(luau_ids@) =~= owned_luau(self@));
        (v8_ids, luau_ids)
    }
}

} // verus!
