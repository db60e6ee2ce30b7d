//! The table of objects that one runtime holds for another, by number.

use vstd::prelude::*;

verus! {

/// What sort of object a reference stands for.
#[derive(Clone, Copy, Debug, PartialEq, Eq, Structural)]
pub enum RefKind {
    Table,
    Function,
    UserData,
    Buffer,
    Thread,
    ArrayBuffer,
    Promise,
    Object,
    String,
    Array,
}

/// A reference to an object of a runtime. Equal references are the same object.
#[derive(Clone, Copy, Debug, PartialEq, Eq, Structural)]
pub struct ObjectRef {
    pub kind: RefKind,
    /// The number under which the embedding keeps the object.
    pub handle: u64,
}

/// A registered object and how often it has been handed out.
#[derive(Clone, Copy, Debug, PartialEq, Eq, Structural)]
pub struct Held {
    pub obj: ObjectRef,
    pub refs: u64,
}

struct Row {
    id: i64,
    held: Held,
}

/// What a registry holds.
#[verifier::ext_equal]
pub struct RegistryView {
    /// The registered objects by number.
    pub live: Map<i64, Held>,
    /// The number that the next new object gets.
    pub next: i64,
    /// The largest number that may be given out.
    pub last: i64,
}

impl RegistryView {
    /// Numbers begin at 1 and end at the largest that may be given out, no object has two, none
    /// has been given that is still to come, and every object that is held has been handed out at
    /// least once.
    pub open spec fn wf(self) -> bool {
        &&& 1 <= self.next
        &&& forall|id: i64| #[trigger]
            self.live.dom().contains(id) ==> 1 <= id < self.next && id <= self.last
        &&& forall|id: i64| #[trigger] self.live.dom().contains(id) ==> self.live[id].refs > 0
        &&& forall|a: i64, b: i64|
            #![trigger self.live[a], self.live[b]]
            self.live.dom().contains(a) && self.live.dom().contains(b) && self.live[a].obj
                == self.live[b].obj ==> a == b
    }

    /// Whether the object is registered.
    pub open spec fn holds(self, obj: ObjectRef) -> bool {
        exists|id: i64| #[trigger] self.live.dom().contains(id) && self.live[id].obj == obj
    }

    /// The number of a registered object.
    pub open spec fn number_of(self, obj: ObjectRef) -> i64 {
        choose|id: i64| #[trigger] self.live.dom().contains(id) && self.live[id].obj == obj
    }

    /// Whether the object can be handed out once more.
    pub open spec fn admits(self, obj: ObjectRef) -> bool {
        if self.holds(obj) {
            self.live[self.number_of(obj)].refs < u64::MAX
        } else {
            self.next <= self.last && self.next < i64::MAX
        }
    }

    /// The number under which `add` hands the object out.
    pub open spec fn id_for(self, obj: ObjectRef) -> i64 {
        if self.holds(obj) {
            self.number_of(obj)
        } else {
            self.next
        }
    }

    /// The registry after the object was handed out once more.
    pub open spec fn added(self, obj: ObjectRef) -> RegistryView {
        if self.holds(obj) {
            let id = self.number_of(obj);
            RegistryView {
                live: self.live.insert(
                    id,
                    Held { obj, refs: (self.live[id].refs + 1) as u64 },
                ),
                ..self
            }
        } else {
            RegistryView {
                live: self.live.insert(self.next, Held { obj, refs: 1 }),
                next: (self.next + 1) as i64,
                ..self
            }
        }
    }

    /// The registry after one handing out was taken back.
    pub open spec fn dropped(self, id: i64) -> RegistryView {
        if self.live.dom().contains(id) && self.live[id].refs > 1 {
            RegistryView {
                live: self.live.insert(
                    id,
                    Held { obj: self.live[id].obj, refs: (self.live[id].refs - 1) as u64 },
                ),
                ..self
            }
        } else {
            self.removed(id)
        }
    }

    /// The registry without that number.
    pub open spec fn removed(self, id: i64) -> RegistryView {
        RegistryView { live: self.live.remove(id), ..self }
    }
}

/// A table of objects by number, each with the count of how often it was handed out.
pub struct Registry {
    rows: Vec<Row>,
    next: i64,
    last: i64,
}

/// The rows as a map from number to object.
spec fn rows_live(rows: Seq<Row>) -> Map<i64, Held> {
    Map::new(
        |id: i64| exists|i: int| 0 <= i < rows.len() && #[trigger] rows[i].id == id,
        |id: i64| rows[choose|i: int| 0 <= i < rows.len() && #[trigger] rows[i].id == id].held,
    )
}

/// No two rows have the same number.
spec fn rows_distinct(rows: Seq<Row>) -> bool {
    forall|i: int, j: int|
        #![trigger rows[i].id, rows[j].id]
        0 <= i < rows.len() && 0 <= j < rows.len() && rows[i].id == rows[j].id ==> i == j
}

proof fn lemma_row(rows: Seq<Row>, i: int)
    requires
        rows_distinct(rows),
        0 <= i < rows.len(),
    ensures
        rows_live(rows).dom().contains(rows[i].id),
        rows_live(rows)[rows[i].id] == rows[i].held,
{
    let id = rows[i].id;
    let j = choose|j: int| 0 <= j < rows.len() && #[trigger] rows[j].id == id;
    assert(rows[i].id == id && rows[j].id == id);
}

proof fn lemma_no_row(rows: Seq<Row>, id: i64)
    requires
        forall|i: int| 0 <= i < rows.len() ==> #[trigger] rows[i].id != id,
    ensures
        !rows_live(rows).dom().contains(id),
{
}

proof fn lemma_set_row(rows: Seq<Row>, i: int, held: Held)
    requires
        rows_distinct(rows),
        0 <= i < rows.len(),
    ensures
        ({
            let after = rows.update(i, Row { id: rows[i].id, held });
            rows_distinct(after) && rows_live(after) == rows_live(rows).insert(rows[i].id, held)
        }),
{
    let id = rows[i].id;
    let after = rows.update(i, Row { id, held });
    assert forall|a: int, b: int|
        #![trigger after[a].id, after[b].id]
        0 <= a < after.len() && 0 <= b < after.len() && after[a].id == after[b].id implies a
        == b by {
        assert(rows[a].id == after[a].id && rows[b].id == after[b].id);
    }
    let want = rows_live(rows).insert(id, held);
    assert forall|k: i64| rows_live(after).dom().contains(k) <==> want.dom().contains(k) by {
        if rows_live(after).dom().contains(k) {
            let j = choose|j: int| 0 <= j < after.len() && #[trigger] after[j].id == k;
            assert(rows[j].id == k);
        }
        if want.dom().contains(k) {
            if k == id {
                assert(after[i].id == k);
            } else {
                let j = choose|j: int| 0 <= j < rows.len() && #[trigger] rows[j].id == k;
                assert(after[j].id == k);
            }
        }
    }
    assert forall|k: i64| rows_live(after).dom().contains(k) implies rows_live(after)[k]
        == want[k] by {
        let j = choose|j: int| 0 <= j < after.len() && #[trigger] after[j].id == k;
        lemma_row(after, j);
        if k == id {
            assert(after[i].id == id);
            assert(j == i);
        } else {
            assert(j != i);
            assert(rows[j].id == k);
            lemma_row(rows, j);
        }
    }
    assert(rows_live(after) =~= want);
}

proof fn lemma_push_row(rows: Seq<Row>, row: Row)
    requires
        rows_distinct(rows),
        !rows_live(rows).dom().contains(row.id),
    ensures
        rows_distinct(rows.push(row)),
        rows_live(rows.push(row)) == rows_live(rows).insert(row.id, row.held),
{
    let after = rows.push(row);
    assert forall|a: int, b: int|
        #![trigger after[a].id, after[b].id]
        0 <= a < after.len() && 0 <= b < after.len() && after[a].id == after[b].id implies a
        == b by {
        if a < rows.len() && b < rows.len() {
            assert(rows[a].id == rows[b].id);
        } else if a < rows.len() {
            assert(rows[a].id == row.id);
        } else if b < rows.len() {
            assert(rows[b].id == row.id);
        }
    }
    let want = rows_live(rows).insert(row.id, row.held);
    assert forall|k: i64| rows_live(after).dom().contains(k) <==> want.dom().contains(k) by {
        if rows_live(after).dom().contains(k) {
            let j = choose|j: int| 0 <= j < after.len() && #[trigger] after[j].id == k;
            if j < rows.len() {
                assert(rows[j].id == k);
            }
        }
        if want.dom().contains(k) {
            if k == row.id {
                assert(after[rows.len() as int].id == k);
            } else {
                let j = choose|j: int| 0 <= j < rows.len() && #[trigger] rows[j].id == k;
                assert(after[j].id == k);
            }
        }
    }
    assert forall|k: i64| rows_live(after).dom().contains(k) implies rows_live(after)[k]
        == want[k] by {
        let j = choose|j: int| 0 <= j < after.len() && #[trigger] after[j].id == k;
        lemma_row(after, j);
        if j < rows.len() {
            assert(rows[j].id == k);
            lemma_row(rows, j);
        }
    }
    assert(rows_live(after) =~= want);
}

proof fn lemma_remove_row(rows: Seq<Row>, i: int)
    requires
        rows_distinct(rows),
        0 <= i < rows.len(),
    ensures
        rows_distinct(rows.remove(i)),
        rows_live(rows.remove(i)) == rows_live(rows).remove(rows[i].id),
{
    let id = rows[i].id;
    let after = rows.remove(i);
    assert forall|a: int, b: int|
        #![trigger after[a].id, after[b].id]
        0 <= a < after.len() && 0 <= b < after.len() && after[a].id == after[b].id implies a
        == b by {
        let a0 = if a < i { a } else { a + 1 };
        let b0 = if b < i { b } else { b + 1 };
        assert(rows[a0].id == rows[b0].id);
    }
    let want = rows_live(rows).remove(id);
    assert forall|k: i64| rows_live(after).dom().contains(k) <==> want.dom().contains(k) by {
        if rows_live(after).dom().contains(k) {
            let j = choose|j: int| 0 <= j < after.len() && #[trigger] after[j].id == k;
            let j0 = if j < i { j } else { j + 1 };
            assert(rows[j0].id == k);
            assert(rows[i].id == id);
        }
        if want.dom().contains(k) {
            let j = choose|j: int| 0 <= j < rows.len() && #[trigger] rows[j].id == k;
            let j1 = if j < i { j } else { j - 1 };
            assert(after[j1].id == k);
        }
    }
    assert forall|k: i64| rows_live(after).dom().contains(k) implies rows_live(after)[k]
        == want[k] by {
        let j = choose|j: int| 0 <= j < after.len() && #[trigger] after[j].id == k;
        lemma_row(after, j);
        let j0 = if j < i { j } else { j + 1 };
        lemma_row(rows, j0);
    }
    assert(rows_live(after) =~= want);
}

impl Registry {
    /// What the registry holds.
    pub closed spec fn view(&self) -> RegistryView {
        RegistryView { live: rows_live(self.rows@), next: self.next, last: self.last }
    }

    /// The registry is in order.
    pub closed spec fn wf(&self) -> bool {
        rows_distinct(self.rows@) && self.view().wf()
    }

    /// What a registry in order holds is in order.
    pub proof fn lemma_wf(&self)
        requires
            self.wf(),
        ensures
            self.view().wf(),
    {
    }

    /// An empty registry that gives out the numbers from 1 to `last`.
    pub fn new(last: i64) -> (r: Self)
        ensures
            r.wf(),
            r.view() == (RegistryView { live: Map::empty(), next: 1, last }),
    {
        let r = Registry { rows: Vec::new(), next: 1, last };
        assert(r.view().live =~= Map::empty());
        r
    }

    fn row_of(&self, id: i64) -> (r: Option<usize>)
        requires
            self.wf(),
        ensures
            r is Some <==> self.view().live.dom().contains(id),
            r matches Some(i) ==> i < self.rows@.len() && self.rows@[i as int].id == id
                && self.rows@[i as int].held == self.view().live[id],
    {
        let mut i: usize = 0;
        while i < self.rows.len()
            invariant
                self.wf(),
                i <= self.rows@.len(),
                forall|j: int| 0 <= j < i ==> #[trigger] self.rows@[j].id != id,
            decreases self.rows@.len() - i,
        {
            if self.rows[i].id == id {
                proof {
                    lemma_row(self.rows@, i as int);
                }
                return Some(i);
            }
            i += 1;
        }
        proof {
            lemma_no_row(self.rows@, id);
        }
        None
    }

    fn row_holding(&self, obj: ObjectRef) -> (r: Option<usize>)
        requires
            self.wf(),
        ensures
            r is Some <==> self.view().holds(obj),
            r matches Some(i) ==> i < self.rows@.len() && self.rows@[i as int].held.obj == obj
                && self.rows@[i as int].id == self.view().number_of(obj)
                && self.rows@[i as int].held == self.view().live[self.view().number_of(obj)],
    {
        let mut i: usize = 0;
        while i < self.rows.len()
            invariant
                self.wf(),
                i <= self.rows@.len(),
                forall|j: int| 0 <= j < i ==> (#[trigger] self.rows@[j]).held.obj != obj,
            decreases self.rows@.len() - i,
        {
            if self.rows[i].held.obj == obj {
                proof {
                    lemma_row(self.rows@, i as int);
                    let n = self.view().number_of(obj);
                    assert(self.view().live.dom().contains(self.rows@[i as int].id));
                    assert(self.view().live[n].obj
                        == self.view().live[self.rows@[i as int].id].obj);
                }
                return Some(i);
            }
            i += 1;
        }
        proof {
            if self.view().holds(obj) {
                let n = self.view().number_of(obj);
                let j = choose|j: int|
                    0 <= j < self.rows@.len() && #[trigger] self.rows@[j].id == n;
                lemma_row(self.rows@, j);
            }
        }
        None
    }

    /// Hands the object out once more and gives its number: the one that it has, or a new one.
    /// Where no number is left, or the count is exhausted, nothing changes.
    pub fn add(&mut self, obj: ObjectRef) -> (r: Option<i64>)
        requires
            old(self).wf(),
        ensures
            final(self).wf(),
            r is Some <==> old(self).view().admits(obj),
            r matches Some(id) ==> id == old(self).view().id_for(obj) && final(self).view()
                == old(self).view().added(obj),
            r is None ==> final(self).view() == old(self).view(),
    {
        match self.row_holding(obj) {
            Some(i) => {
                let id = self.rows[i].id;
                let refs = self.rows[i].held.refs;
                if refs == u64::MAX {
                    return None;
                }
                let held = Held { obj, refs: refs + 1 };
                proof {
                    lemma_set_row(self.rows@, i as int, held);
                }
                self.rows.set(i, Row { id, held });
                Some(id)
            },
            None => {
                if self.next > self.last || self.next == i64::MAX {
                    return None;
                }
                let id = self.next;
                let held = Held { obj, refs: 1 };
                proof {
                    assert(!self.view().live.dom().contains(id));
                    lemma_push_row(self.rows@, Row { id, held });
                }
                self.rows.push(Row { id, held });
                self.next = id + 1;
                Some(id)
            },
        }
    }

    /// The object with that number. Does not change the count.
    pub fn get(&self, id: i64) -> (r: Option<ObjectRef>)
        requires
            self.wf(),
        ensures
            r is Some <==> self.view().live.dom().contains(id),
            r matches Some(obj) ==> obj == self.view().live[id].obj,
    {
        match self.row_of(id) {
            Some(i) => Some(self.rows[i].held.obj),
            None => None,
        }
    }

    /// Whether the object is registered.
    pub fn is_held(&self, obj: ObjectRef) -> (r: bool)
        requires
            self.wf(),
        ensures
            r == self.view().holds(obj),
    {
        self.row_holding(obj).is_some()
    }

    /// Takes one handing out back, and the object out of the registry with the last one.
    /// Says whether the number was in use.
    pub fn drop(&mut self, id: i64) -> (r: bool)
        requires
            old(self).wf(),
        ensures
            final(self).wf(),
            r == old(self).view().live.dom().contains(id),
            final(self).view() == old(self).view().dropped(id),
    {
        match self.row_of(id) {
            Some(i) => {
                let held = self.rows[i].held;
                if held.refs > 1 {
                    let less = Held { obj: held.obj, refs: held.refs - 1 };
                    proof {
                        lemma_set_row(self.rows@, i as int, less);
                    }
                    self.rows.set(i, Row { id, held: less });
                } else {
                    proof {
                        lemma_remove_row(self.rows@, i as int);
                    }
                    self.rows.remove(i);
                }
                true
            },
            None => {
                assert(self.view().live.remove(id) =~= self.view().live);
                false
            },
        }
    }

    /// Takes the object out of the registry, however often it was handed out.
    /// Says whether the number was in use.
    pub fn remove(&mut self, id: i64) -> (r: bool)
        requires
            old(self).wf(),
        ensures
            final(self).wf(),
            r == old(self).view().live.dom().contains(id),
            final(self).view() == old(self).view().removed(id),
    {
        match self.row_of(id) {
            Some(i) => {
                proof {
                    lemma_remove_row(self.rows@, i as int);
                }
                self.rows.remove(i);
                true
            },
            None => {
                assert(self.view().live.remove(id) =~= self.view().live);
                false
            },
        }
    }
}

/// What was registered is found under the number that it was given.
pub proof fn law_get_gives_what_was_added(reg: RegistryView, obj: ObjectRef)
    requires
        reg.wf(),
        reg.admits(obj),
    ensures
        reg.added(obj).live.dom().contains(reg.id_for(obj)),
        reg.added(obj).live[reg.id_for(obj)].obj == obj,
{
    if reg.holds(obj) {
        assert(reg.live.dom().contains(reg.number_of(obj)));
    }
}

/// An object that is already registered keeps its number.
pub proof fn law_same_object_same_number(reg: RegistryView, obj: ObjectRef)
    requires
        reg.wf(),
        reg.admits(obj),
    ensures
        reg.added(obj).holds(obj),
        reg.added(obj).id_for(obj) == reg.id_for(obj),
        reg.added(obj).wf(),
{
    law_added_wf(reg, obj);
    law_get_gives_what_was_added(reg, obj);
    let after = reg.added(obj);
    let id = reg.id_for(obj);
    assert(after.live.dom().contains(id) && after.live[id].obj == obj);
    let n = after.number_of(obj);
    assert(after.live[n].obj == after.live[id].obj);
}

/// Handing an object out keeps the registry in order.
pub proof fn law_added_wf(reg: RegistryView, obj: ObjectRef)
    requires
        reg.wf(),
        reg.admits(obj),
    ensures
        reg.added(obj).wf(),
{
    if reg.holds(obj) {
        assert(reg.live.dom().contains(reg.number_of(obj)));
        let after = reg.added(obj);
        assert forall|a: i64, b: i64|
            #![trigger after.live[a], after.live[b]]
            after.live.dom().contains(a) && after.live.dom().contains(b) && after.live[a].obj
                == after.live[b].obj implies a == b by {
            assert(reg.live[a].obj == after.live[a].obj);
            assert(reg.live[b].obj == after.live[b].obj);
        }
    } else {
        let after = reg.added(obj);
        assert forall|a: i64, b: i64|
            #![trigger after.live[a], after.live[b]]
            after.live.dom().contains(a) && after.live.dom().contains(b) && after.live[a].obj
                == after.live[b].obj implies a == b by {
            if a != reg.next && b != reg.next {
                assert(reg.live[a].obj == reg.live[b].obj);
            }
        }
    }
}

/// Taking a handing out back keeps the registry in order.
pub proof fn law_dropped_wf(reg: RegistryView, id: i64)
    requires
        reg.wf(),
    ensures
        reg.dropped(id).wf(),
{
    let after = reg.dropped(id);
    assert forall|a: i64, b: i64|
        #![trigger after.live[a], after.live[b]]
        after.live.dom().contains(a) && after.live.dom().contains(b) && after.live[a].obj
            == after.live[b].obj implies a == b by {
        assert(reg.live[a].obj == after.live[a].obj);
        assert(reg.live[b].obj == after.live[b].obj);
    }
}

/// Dropping the number that `add` gave undoes the `add`, but for the next number to be given.
pub proof fn law_drop_undoes_add(reg: RegistryView, obj: ObjectRef)
    requires
        reg.wf(),
        reg.admits(obj),
    ensures
        reg.added(obj).dropped(reg.id_for(obj)).live == reg.live,
{
    let back = reg.added(obj).dropped(reg.id_for(obj));
    if reg.holds(obj) {
        assert(reg.live.dom().contains(reg.number_of(obj)));
        assert(back.live =~= reg.live);
    } else {
        assert(!reg.live.dom().contains(reg.next));
        assert(back.live =~= reg.live);
    }
}

/// Registering one object leaves what is held under every other number as it was.
pub proof fn law_add_leaves_others(reg: RegistryView, obj: ObjectRef, id: i64)
    requires
        reg.wf(),
        reg.live.dom().contains(id),
    ensures
        reg.added(obj).live.dom().contains(id),
        reg.added(obj).live[id].obj == reg.live[id].obj,
        id != reg.id_for(obj) ==> reg.added(obj).live[id] == reg.live[id],
{
    if reg.holds(obj) {
        assert(reg.live.dom().contains(reg.number_of(obj)));
    } else {
        assert(reg.live.dom().contains(id));
    }
}

/// Something that is done with a registry.
pub enum Deed {
    /// An object is handed out.
    Add(ObjectRef),
    /// A handing out of the object with that number is taken back.
    Drop(i64),
}

/// The registry after one deed. Handing out changes nothing where it is refused.
pub open spec fn after_deed(reg: RegistryView, deed: Deed) -> RegistryView {
    match deed {
        Deed::Add(obj) => if reg.admits(obj) {
            reg.added(obj)
        } else {
            reg
        },
        Deed::Drop(id) => reg.dropped(id),
    }
}

/// The registry after some deeds, the first one first.
pub open spec fn after_deeds(reg: RegistryView, deeds: Seq<Deed>) -> RegistryView
    decreases deeds.len(),
{
    if deeds.len() == 0 {
        reg
    } else {
        after_deed(after_deeds(reg, deeds.drop_last()), deeds.last())
    }
}

/// How many more times some deeds hand an object out than they take it back.
pub open spec fn balance(reg: RegistryView, deeds: Seq<Deed>, obj: ObjectRef, id: i64) -> int
    decreases deeds.len(),
{
    if deeds.len() == 0 {
        0
    } else {
        let before = balance(reg, deeds.drop_last(), obj, id);
        match deeds.last() {
            Deed::Add(o) => if o == obj && after_deeds(reg, deeds.drop_last()).admits(o) {
                before + 1
            } else {
                before
            },
            Deed::Drop(i) => if i == id {
                before - 1
            } else {
                before
            },
        }
    }
}

proof fn lemma_number_of_held(reg: RegistryView, id: i64)
    requires
        reg.wf(),
        reg.live.dom().contains(id),
    ensures
        reg.holds(reg.live[id].obj),
        reg.number_of(reg.live[id].obj) == id,
{
    let obj = reg.live[id].obj;
    assert(reg.live.dom().contains(id) && reg.live[id].obj == obj);
    let n = reg.number_of(obj);
    assert(reg.live[n].obj == reg.live[id].obj);
}

/// Whatever else is done with a registry, an object stays under its number until it was taken
/// back as often as it was handed out, and is gone then.
pub proof fn law_held_until_the_last_drop(reg: RegistryView, id: i64, deeds: Seq<Deed>)
    requires
        reg.wf(),
        reg.live.dom().contains(id),
        forall|k: int|
            0 <= k < deeds.len() ==> reg.live[id].refs + #[trigger] balance(
                reg,
                deeds.take(k),
                reg.live[id].obj,
                id,
            ) > 0,
    ensures
        ({
            let after = after_deeds(reg, deeds);
            let count = reg.live[id].refs + balance(reg, deeds, reg.live[id].obj, id);
            &&& after.wf()
            &&& after.last == reg.last
            &&& count >= 0
            &&& count > 0 ==> after.live.dom().contains(id) && after.live[id].obj
                == reg.live[id].obj && after.live[id].refs == count
            &&& count == 0 ==> !after.live.dom().contains(id)
        }),
    decreases deeds.len(),
{
    if deeds.len() > 0 {
        let obj = reg.live[id].obj;
        let less = deeds.drop_last();
        assert forall|k: int| 0 <= k < less.len() implies reg.live[id].refs + #[trigger] balance(
            reg,
            less.take(k),
            obj,
            id,
        ) > 0 by {
            assert(less.take(k) =~= deeds.take(k));
            assert(reg.live[id].refs + balance(reg, deeds.take(k), obj, id) > 0);
        }
        law_held_until_the_last_drop(reg, id, less);
        assert(less =~= deeds.take(deeds.len() - 1));
        assert(reg.live[id].refs + balance(reg, deeds.take(deeds.len() - 1), obj, id) > 0);
        let before = after_deeds(reg, less);
        lemma_number_of_held(before, id);
        match deeds.last() {
            Deed::Add(o) => {
                if before.admits(o) {
                    law_added_wf(before, o);
                    if o != obj {
                        law_add_leaves_others(before, o, id);
                        if before.holds(o) {
                            assert(before.live.dom().contains(before.number_of(o)));
                        }
                    }
                }
            },
            Deed::Drop(i) => law_dropped_wf(before, i),
        }
    }
}

/// Two objects never share a number.
pub proof fn law_different_objects_different_numbers(
    reg: RegistryView,
    first: ObjectRef,
    second: ObjectRef,
)
    requires
        reg.wf(),
        first != second,
        reg.admits(first),
        reg.added(first).admits(second),
    ensures
        reg.added(first).id_for(second) != reg.id_for(first),
{
    law_get_gives_what_was_added(reg, first);
    law_same_object_same_number(reg, first);
    let after = reg.added(first);
    if after.holds(second) {
        assert(after.live.dom().contains(after.number_of(second)));
    }
}

/// A registry takes a new object as long as there is a number left, and one that it has as long as
/// its handings out can be counted.
pub proof fn law_takes_objects_while_there_is_room(reg: RegistryView, obj: ObjectRef)
    requires
        reg.wf(),
    ensures
        (forall|id: i64| #[trigger] reg.live.dom().contains(id) ==> reg.live[id].obj != obj) ==> (
        reg.admits(obj) <==> reg.next <= reg.last && reg.next < i64::MAX),
        forall|id: i64| #[trigger]
            reg.live.dom().contains(id) && reg.live[id].obj == obj ==> (reg.admits(obj)
                <==> reg.live[id].refs < u64::MAX) && reg.id_for(obj) == id,
{
    assert forall|id: i64| #[trigger]
        reg.live.dom().contains(id) && reg.live[id].obj == obj implies (reg.admits(obj)
        <==> reg.live[id].refs < u64::MAX) && reg.id_for(obj) == id by {
        assert(reg.holds(obj));
        let other = reg.number_of(obj);
        assert(reg.live[other].obj == reg.live[id].obj);
    }
}

} // verus!
