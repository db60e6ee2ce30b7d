//! The QuickJS values that Luau holds on to.

use std::collections::VecDeque;

use vstd::prelude::*;

verus! {

/// Values by index. An index is used again once its value was removed.
pub struct PersistentStore<T> {
    store: Vec<Option<T>>,
    free: VecDeque<usize>,
}

/// Whenever a PersistentStore value gets fully dropped by dropping this handle, the value will be removed from the store.
///
/// A copy of the handle does not remove the value.
#[derive(Debug, PartialEq, Eq)]
pub struct PersistentStoreHandler {
    pub index: usize,
    pub drop: bool,
}

impl Clone for PersistentStoreHandler {
    fn clone(&self) -> (r: Self)
        ensures
            r.index == self.index,
            !r.drop,
    {
        PersistentStoreHandler { index: self.index, drop: false }
    }
}

/// What a store holds.
#[verifier::ext_equal]
pub struct StoreView<T> {
    /// The values by index.
    pub slots: Seq<Option<T>>,
    /// The indices to be used again, the next one first.
    pub free: Seq<usize>,
}

impl<T> StoreView<T> {
    /// An empty store.
    pub open spec fn nothing() -> StoreView<T> {
        StoreView { slots: Seq::empty(), free: Seq::empty() }
    }

    /// Every index that is to be used again is one of the store.
    pub open spec fn wf(self) -> bool {
        forall|i: int| 0 <= i < self.free.len() ==> (#[trigger] self.free[i]) < self.slots.len()
    }

    /// The indices to be used again are those without a value, each of them once.
    pub open spec fn tidy(self) -> bool {
        &&& forall|i: int|
            0 <= i < self.free.len() ==> self.slots[#[trigger] self.free[i] as int] is None
        &&& forall|i: int|
            0 <= i < self.slots.len() && (#[trigger] self.slots[i]) is None ==> exists|j: int|
                0 <= j < self.free.len() && #[trigger] self.free[j] == i
        &&& forall|i: int, j: int|
            #![trigger self.free[i], self.free[j]]
            0 <= i < self.free.len() && 0 <= j < self.free.len() && self.free[i] == self.free[j]
                ==> i == j
    }

    /// The index that the next value gets.
    pub open spec fn next(self) -> int {
        if self.free.len() > 0 {
            self.free[0] as int
        } else {
            self.slots.len() as int
        }
    }

    /// The store with one more value.
    pub open spec fn added(self, value: T) -> StoreView<T> {
        if self.free.len() > 0 {
            StoreView {
                slots: self.slots.update(self.free[0] as int, Some(value)),
                free: self.free.subrange(1, self.free.len() as int),
            }
        } else {
            StoreView { slots: self.slots.push(Some(value)), free: self.free }
        }
    }

    /// The value at an index.
    pub open spec fn at(self, index: int) -> Option<T> {
        if 0 <= index < self.slots.len() {
            self.slots[index]
        } else {
            None
        }
    }

    /// How many values there are.
    pub open spec fn held(self) -> nat {
        values_in(self.slots)
    }

    /// The store after a handle was dropped.
    pub open spec fn released(self, handle: PersistentStoreHandler) -> StoreView<T> {
        if handle.drop {
            self.removed(handle.index)
        } else {
            self
        }
    }

    /// The store without the value at an index.
    pub open spec fn removed(self, index: usize) -> StoreView<T> {
        if index < self.slots.len() {
            StoreView {
                slots: self.slots.update(index as int, None),
                free: self.free.push(index),
            }
        } else {
            self
        }
    }
}

/// How many slots hold a value.
pub open spec fn values_in<T>(slots: Seq<Option<T>>) -> nat
    decreases slots.len(),
{
    if slots.len() == 0 {
        0
    } else {
        values_in(slots.drop_last()) + if slots.last() is Some {
            1nat
        } else {
            0
        }
    }
}

impl<T> PersistentStore<T> {
    /// What the store holds.
    pub closed spec fn view(&self) -> StoreView<T> {
        StoreView { slots: self.store@, free: self.free@ }
    }

    /// The store is in order.
    pub open spec fn wf(&self) -> bool {
        self@.wf()
    }

    /// An empty store.
    pub fn new() -> (r: Self)
        ensures
            r.wf(),
            r@ == StoreView::<T>::nothing(),
    {
        PersistentStore { store: Vec::new(), free: VecDeque::new() }
    }

    /// Puts a value into the store and gives the handle that removes it.
    pub fn add(&mut self, value: T) -> (r: PersistentStoreHandler)
        requires
            old(self).wf(),
        ensures
            final(self).wf(),
            r.index == old(self)@.next(),
            r.drop,
            final(self)@ == old(self)@.added(value),
    {
        proof {
            if self.free@.len() > 0 {
                assert(self@.free[0] < self@.slots.len());
            }
        }
        match self.free.pop_front() {
            Some(index) => {
                self.store.set(index, Some(value));
                let r = PersistentStoreHandler { index, drop: true };
                assert(self@ =~= old(self)@.added(value));
                r
            },
            None => {
                let index = self.store.len();
                self.store.push(Some(value));
                assert(self@ =~= old(self)@.added(value));
                PersistentStoreHandler { index, drop: true }
            },
        }
    }

    /// The value of a handle, as long as it was not removed.
    pub fn get(&self, handle: &PersistentStoreHandler) -> (r: Option<&T>)
        ensures
            r is Some <==> self@.at(handle.index as int) is Some,
            r matches Some(v) ==> self@.at(handle.index as int) == Some(*v),
    {
        if handle.index >= self.store.len() {
            return None;
        }
        match &self.store[handle.index] {
            Some(v) => Some(v),
            None => None,
        }
    }

    fn remove(&mut self, index: usize)
        requires
            old(self).wf(),
        ensures
            final(self).wf(),
            final(self)@ == old(self)@.removed(index),
    {
        if index >= self.store.len() {
            return;
        }
        self.store.set(index, None);
        self.free.push_back(index);
        assert(self@ =~= old(self)@.removed(index));
    }

    /// Empties the store.
    pub fn clear(&mut self)
        ensures
            final(self).wf(),
            final(self)@ == StoreView::<T>::nothing(),
    {
        self.store.clear();
        self.free.clear();
    }
}

impl PersistentStoreHandler {
    /// Drops the handle, and with the handle that `add` gave the value.
    pub fn drop<T>(self, store: &mut PersistentStore<T>)
        requires
            old(store).wf(),
        ensures
            final(store).wf(),
            final(store)@ == old(store)@.released(self),
    {
        if self.drop {
            store.remove(self.index);
        }
    }
}

/// A value that was put into a store is the one that its handle gives.
pub proof fn law_handle_gives_what_was_added<T>(s: StoreView<T>, value: T)
    requires
        s.wf(),
    ensures
        s.added(value).at(s.next()) == Some(value),
{
}

/// Putting a value into a store does not touch any other value.
pub proof fn law_add_keeps_other_values<T>(s: StoreView<T>, value: T, index: int)
    requires
        s.wf(),
        s.tidy(),
        s.at(index) is Some,
    ensures
        index != s.next(),
        s.added(value).at(index) == s.at(index),
{
}

/// A store stays tidy when a value is put in, and when one that is there is removed.
pub proof fn law_stays_tidy<T>(s: StoreView<T>, value: T, index: usize)
    requires
        s.wf(),
        s.tidy(),
    ensures
        s.added(value).wf(),
        s.added(value).tidy(),
        s.at(index as int) is Some ==> s.removed(index).wf() && s.removed(index).tidy(),
{
    let a = s.added(value);
    assert forall|i: int| 0 <= i < a.slots.len() && (#[trigger] a.slots[i]) is None implies exists|
        j: int,
    |
        0 <= j < a.free.len() && #[trigger] a.free[j] == i by {
        assert(s.slots[i] is None);
        let j = choose|j: int| 0 <= j < s.free.len() && #[trigger] s.free[j] == i;
        assert(a.free[j - 1] == i);
    }
    if s.free.len() > 0 {
        assert forall|i: int| 0 <= i < a.free.len() implies a.slots[#[trigger] a.free[i] as int] is None by {
            assert(a.free[i] == s.free[i + 1]);
            assert(s.free[0] != s.free[i + 1]);
        }
        assert forall|i: int, j: int|
            #![trigger a.free[i], a.free[j]]
            0 <= i < a.free.len() && 0 <= j < a.free.len() && a.free[i] == a.free[j] implies i
            == j by {
            assert(a.free[i] == s.free[i + 1] && a.free[j] == s.free[j + 1]);
        }
    }
    if s.at(index as int) is Some {
        let b = s.removed(index);
        assert forall|i: int| 0 <= i < b.slots.len() && (#[trigger] b.slots[i]) is None implies exists|
            j: int,
        |
            0 <= j < b.free.len() && #[trigger] b.free[j] == i by {
            if i == index {
                assert(b.free[s.free.len() as int] == i);
            } else {
                assert(s.slots[i] is None);
                let j = choose|j: int| 0 <= j < s.free.len() && #[trigger] s.free[j] == i;
                assert(b.free[j] == i);
            }
        }
        assert forall|i: int| 0 <= i < b.free.len() implies b.slots[#[trigger] b.free[i] as int] is None by {
            if i < s.free.len() {
                assert(b.free[i] == s.free[i]);
            }
        }
        assert forall|i: int, j: int|
            #![trigger b.free[i], b.free[j]]
            0 <= i < b.free.len() && 0 <= j < b.free.len() && b.free[i] == b.free[j] implies i
            == j by {
            if i < s.free.len() {
                assert(s.slots[s.free[i] as int] is None);
            }
            if j < s.free.len() {
                assert(s.slots[s.free[j] as int] is None);
            }
        }
    }
}

/// A value that was removed is no longer there, and the other values still are.
pub proof fn law_removed_is_gone<T>(s: StoreView<T>, index: usize, other: int)
    ensures
        s.removed(index).at(index as int) is None,
        other != index ==> s.removed(index).at(other) == s.at(other),
{
}

/// Dropping a copy of the handle that `add` gave leaves the value in the store. Dropping the handle
/// itself removes the value for every copy, and leaves the index to be used again.
pub proof fn law_copies_do_not_own<T>(
    s: StoreView<T>,
    value: T,
    handle: PersistentStoreHandler,
    copy: PersistentStoreHandler,
)
    requires
        s.wf(),
        handle.index == s.next(),
        handle.drop,
        copy.index == handle.index,
        !copy.drop,
    ensures
        s.added(value).released(copy) == s.added(value),
        s.added(value).released(copy).at(copy.index as int) == Some(value),
        s.added(value).released(handle).at(copy.index as int) is None,
        s.added(value).released(handle).free.contains(handle.index),
        s.free.len() == 0 ==> s.added(value).released(handle).next() == handle.index,
{
    let full = s.added(value);
    let after = full.released(handle);
    assert(after.free[full.free.len() as int] == handle.index);
}

/// What `law_copies_do_not_own` says holds as long as the value is in the store, whatever else was
/// done with it.
pub proof fn law_handle_removes_for_every_copy<T>(
    s: StoreView<T>,
    handle: PersistentStoreHandler,
    copy: PersistentStoreHandler,
)
    requires
        s.at(handle.index as int) is Some,
        handle.drop,
        copy.index == handle.index,
        !copy.drop,
    ensures
        s.released(copy) == s,
        s.released(handle).at(copy.index as int) is None,
        s.released(handle).free.contains(handle.index),
{
    let after = s.released(handle);
    assert(after.free[s.free.len() as int] == handle.index);
}

/// Something that is done with a store.
pub enum StoreDeed<T> {
    /// A value is put in.
    Add(T),
    /// A handle is dropped.
    Release(PersistentStoreHandler),
}

/// A store to which some things were done since it was made, the first one first.
pub open spec fn store_after<T>(deeds: Seq<StoreDeed<T>>) -> StoreView<T>
    decreases deeds.len(),
{
    if deeds.len() == 0 {
        StoreView::nothing()
    } else {
        let before = store_after(deeds.drop_last());
        match deeds.last() {
            StoreDeed::Add(value) => before.added(value),
            StoreDeed::Release(handle) => before.released(handle),
        }
    }
}

/// The most values that the store has held at one time.
pub open spec fn most_held<T>(deeds: Seq<StoreDeed<T>>) -> nat
    decreases deeds.len(),
{
    if deeds.len() == 0 {
        0
    } else {
        let before = most_held(deeds.drop_last());
        let now = store_after(deeds).held();
        if now > before {
            now
        } else {
            before
        }
    }
}

/// Whether every handle that owns its value was dropped while the value was there: `add` gives one
/// such handle for a value, and a handle is dropped once.
pub open spec fn dropped_once<T>(deeds: Seq<StoreDeed<T>>) -> bool
    decreases deeds.len(),
{
    deeds.len() > 0 ==> dropped_once(deeds.drop_last()) && match deeds.last() {
        StoreDeed::Add(_) => true,
        StoreDeed::Release(handle) => handle.drop ==> store_after(deeds.drop_last()).at(
            handle.index as int,
        ) is Some,
    }
}

proof fn lemma_values_after_update<T>(slots: Seq<Option<T>>, i: int, v: Option<T>)
    requires
        0 <= i < slots.len(),
    ensures
        values_in(slots.update(i, v)) + if slots[i] is Some {
            1int
        } else {
            0
        } == values_in(slots) + if v is Some {
            1int
        } else {
            0
        },
    decreases slots.len(),
{
    let after = slots.update(i, v);
    if i == slots.len() - 1 {
        assert(after.drop_last() =~= slots.drop_last());
    } else {
        assert(after.drop_last() =~= slots.drop_last().update(i, v));
        lemma_values_after_update(slots.drop_last(), i, v);
    }
}

/// A store has never more slots than it has held values at one time: it does not grow while a
/// slot is free. So the index of one more value is below the most that are then held.
pub proof fn law_store_does_not_grow_while_a_slot_is_free<T>(deeds: Seq<StoreDeed<T>>, value: T)
    requires
        dropped_once(deeds),
    ensures
        store_after(deeds).wf(),
        store_after(deeds).tidy(),
        store_after(deeds).slots.len() <= most_held(deeds),
        store_after(deeds).held() + store_after(deeds).free.len() == store_after(deeds).slots.len(),
        store_after(deeds).next() < most_held(deeds.push(StoreDeed::Add(value))),
    decreases deeds.len(),
{
    let s = store_after(deeds);
    if deeds.len() > 0 {
        let less = deeds.drop_last();
        let before = store_after(less);
        law_store_does_not_grow_while_a_slot_is_free(less, value);
        match deeds.last() {
            StoreDeed::Add(v) => {
                law_stays_tidy(before, v, 0);
                lemma_values_after_add(before, v);
            },
            StoreDeed::Release(handle) => {
                if handle.drop {
                    law_stays_tidy(before, value, handle.index);
                    lemma_values_after_update(before.slots, handle.index as int, None);
                }
            },
        }
    }
    let more = deeds.push(StoreDeed::Add(value));
    assert(more.drop_last() =~= deeds);
    assert(store_after(more) == s.added(value));
    lemma_values_after_add(s, value);
}

proof fn lemma_values_after_add<T>(s: StoreView<T>, value: T)
    requires
        s.wf(),
        s.tidy(),
    ensures
        s.added(value).held() == s.held() + 1,
{
    if s.free.len() > 0 {
        assert(s.slots[s.free[0] as int] is None);
        lemma_values_after_update(s.slots, s.free[0] as int, Some(value));
    } else {
        assert(s.slots.push(Some(value)).drop_last() =~= s.slots);
    }
}

} // verus!
