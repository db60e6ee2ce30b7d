//! Several values at once: each is converted in its place, after those before it.

use vstd::prelude::*;

use crate::denobridge::conv_luau::{value_of_luau, value_to_luau};
use crate::denobridge::conv_v8::{value_of_v8, value_to_v8};
use crate::denobridge::jsvalue::JsView;
use crate::denobridge::law_items::{
    lemma_value_of_luau_keeps_place, lemma_value_of_v8_keeps_place, lemma_value_to_luau_keeps_place,
    lemma_value_to_v8_keeps_place,
};
use crate::denobridge::many::{all_of_luau, all_of_v8, all_to_luau, all_to_v8, Taken};
use crate::denobridge::value::V8View;
use crate::luau::embedder_api::EmbedderDataContext;
use crate::luau::value::LuauView;
use crate::outcome::{Charged, Step};
use crate::registry::RegistryView;
use crate::text::decimal;

verus! {

/// What one value more adds to those that are converted already.
proof fn lemma_all_of_luau(
    s: Seq<LuauView>,
    x: LuauView,
    i: int,
    done: Seq<V8View>,
    reg: RegistryView,
    ed: EmbedderDataContext,
    what: Seq<char>,
)
    requires
        0 <= i <= s.len(),
    ensures
        all_of_luau(s.push(x), i, done, reg, ed, what) == ({
            let before = all_of_luau(s, i, done, reg, ed, what);
            match before.res {
                Err(e) => before,
                Ok(all) => {
                    let one = value_of_luau(x, before.reg, before.ed);
                    match one.res {
                        Err(e) => Step { reg: one.reg, ed: one.ed, res: Err(what + e) },
                        Ok(p) => Step { reg: one.reg, ed: one.ed, res: Ok(all.push(p)) },
                    }
                },
            }
        }),
    decreases s.len() - i,
{
    let more = s.push(x);
    if i == s.len() {
        reveal_with_fuel(all_of_luau, 2);
    } else {
        assert(more[i] == s[i]);
        let one = value_of_luau(s[i], reg, ed);
        if one.res is Ok {
            lemma_all_of_luau(s, x, i + 1, done.push(one.res->Ok_0), one.reg, one.ed, what);
        }
    }
}

/// One value more from Luau is converted after the others, whatever it is, and stands behind them;
/// the text says what was being done where it cannot be.
pub proof fn law_values_from_luau_one_more(
    s: Seq<LuauView>,
    x: LuauView,
    reg: RegistryView,
    ed: EmbedderDataContext,
    what: Seq<char>,
)
    ensures
        all_of_luau(s.push(x), 0, Seq::empty(), reg, ed, what) == ({
            let before = all_of_luau(s, 0, Seq::empty(), reg, ed, what);
            match before.res {
                Err(e) => before,
                Ok(all) => {
                    let one = value_of_luau(x, before.reg, before.ed);
                    match one.res {
                        Err(e) => Step { reg: one.reg, ed: one.ed, res: Err(what + e) },
                        Ok(p) => Step { reg: one.reg, ed: one.ed, res: Ok(all.push(p)) },
                    }
                },
            }
        }),
{
    lemma_all_of_luau(s, x, 0, Seq::empty(), reg, ed, what);
}

/// Several values from Luau become as many values, and each of them, nil like any other, becomes
/// what it becomes after those before it and stands in its place.
pub proof fn law_values_from_luau_one_by_one(
    s: Seq<LuauView>,
    reg: RegistryView,
    ed: EmbedderDataContext,
    what: Seq<char>,
)
    ensures
        all_of_luau(Seq::empty(), 0, Seq::empty(), reg, ed, what)
            == (Step { reg, ed, res: Ok(Seq::<V8View>::empty()) }),
        all_of_luau(s, 0, Seq::empty(), reg, ed, what).res matches Ok(all) ==> all.len() == s.len()
            && forall|k: int|
            0 <= k < s.len() ==> ({
                let before = all_of_luau(s.take(k), 0, Seq::empty(), reg, ed, what);
                value_of_luau(s[k], before.reg, before.ed).res
                    == Ok::<V8View, Seq<char>>(#[trigger] all[k])
            }),
        all_of_luau(s, 0, Seq::empty(), reg, ed, what).ed.ed == ed.ed,
        all_of_luau(s, 0, Seq::empty(), reg, ed, what).ed.depth == ed.depth,
    decreases s.len(),
{
    if s.len() > 0 {
        let t = s.drop_last();
        assert(t.push(s.last()) =~= s);
        law_values_from_luau_one_more(t, s.last(), reg, ed, what);
        law_values_from_luau_one_by_one(t, reg, ed, what);
        let before = all_of_luau(t, 0, Seq::empty(), reg, ed, what);
        lemma_value_of_luau_keeps_place(s.last(), before.reg, before.ed);
        if all_of_luau(s, 0, Seq::empty(), reg, ed, what).res is Ok {
            let all = all_of_luau(s, 0, Seq::empty(), reg, ed, what).res->Ok_0;
            let first = before.res->Ok_0;
            assert(s.take(t.len() as int) =~= t);
            assert(all.drop_last() =~= first);
            assert forall|k: int| 0 <= k < s.len() implies ({
                let before = all_of_luau(s.take(k), 0, Seq::empty(), reg, ed, what);
                value_of_luau(s[k], before.reg, before.ed).res
                    == Ok::<V8View, Seq<char>>(#[trigger] all[k])
            }) by {
                if k < t.len() {
                    assert(first[k] == all[k]);
                    assert(t[k] == s[k]);
                assert(s.take(k) =~= t.take(k));
                }
            }
        }
    }
}

/// What one value more adds to those that are converted already.
proof fn lemma_all_to_luau(
    s: Seq<V8View>,
    x: V8View,
    i: int,
    done: Seq<LuauView>,
    reg: RegistryView,
    ed: EmbedderDataContext,
    what: Seq<char>,
)
    requires
        0 <= i <= s.len(),
    ensures
        all_to_luau(s.push(x), i, done, reg, ed, what) == ({
            let before = all_to_luau(s, i, done, reg, ed, what);
            match before.res {
                Err(e) => before,
                Ok(all) => {
                    let one = value_to_luau(x, reg, before.ed);
                    match one.res {
                        Err(e) => Charged { ed: one.ed, res: Err(what + e) },
                        Ok(p) => Charged { ed: one.ed, res: Ok(all.push(p)) },
                    }
                },
            }
        }),
    decreases s.len() - i,
{
    let more = s.push(x);
    if i == s.len() {
        reveal_with_fuel(all_to_luau, 2);
    } else {
        assert(more[i] == s[i]);
        let one = value_to_luau(s[i], reg, ed);
        if one.res is Ok {
            lemma_all_to_luau(s, x, i + 1, done.push(one.res->Ok_0), reg, one.ed, what);
        }
    }
}

/// One value more to Luau is converted after the others, whatever it is, and stands behind them;
/// the text says what was being done where it cannot be.
pub proof fn law_values_to_luau_one_more(
    s: Seq<V8View>,
    x: V8View,
    reg: RegistryView,
    ed: EmbedderDataContext,
    what: Seq<char>,
)
    ensures
        all_to_luau(s.push(x), 0, Seq::empty(), reg, ed, what) == ({
            let before = all_to_luau(s, 0, Seq::empty(), reg, ed, what);
            match before.res {
                Err(e) => before,
                Ok(all) => {
                    let one = value_to_luau(x, reg, before.ed);
                    match one.res {
                        Err(e) => Charged { ed: one.ed, res: Err(what + e) },
                        Ok(p) => Charged { ed: one.ed, res: Ok(all.push(p)) },
                    }
                },
            }
        }),
{
    lemma_all_to_luau(s, x, 0, Seq::empty(), reg, ed, what);
}

/// Several values become as many values in Luau, and each of them becomes what it becomes after those
/// before it and stands in its place.
pub proof fn law_values_to_luau_one_by_one(
    s: Seq<V8View>,
    reg: RegistryView,
    ed: EmbedderDataContext,
    what: Seq<char>,
)
    ensures
        all_to_luau(Seq::empty(), 0, Seq::empty(), reg, ed, what)
            == (Charged { ed, res: Ok(Seq::<LuauView>::empty()) }),
        all_to_luau(s, 0, Seq::empty(), reg, ed, what).res matches Ok(all) ==> all.len() == s.len()
            && forall|k: int|
            0 <= k < s.len() ==> ({
                let before = all_to_luau(s.take(k), 0, Seq::empty(), reg, ed, what);
                value_to_luau(s[k], reg, before.ed).res
                    == Ok::<LuauView, Seq<char>>(#[trigger] all[k])
            }),
        all_to_luau(s, 0, Seq::empty(), reg, ed, what).ed.ed == ed.ed,
        all_to_luau(s, 0, Seq::empty(), reg, ed, what).ed.depth == ed.depth,
    decreases s.len(),
{
    if s.len() > 0 {
        let t = s.drop_last();
        assert(t.push(s.last()) =~= s);
        law_values_to_luau_one_more(t, s.last(), reg, ed, what);
        law_values_to_luau_one_by_one(t, reg, ed, what);
        let before = all_to_luau(t, 0, Seq::empty(), reg, ed, what);
        lemma_value_to_luau_keeps_place(s.last(), reg, before.ed);
        if all_to_luau(s, 0, Seq::empty(), reg, ed, what).res is Ok {
            let all = all_to_luau(s, 0, Seq::empty(), reg, ed, what).res->Ok_0;
            let first = before.res->Ok_0;
            assert(s.take(t.len() as int) =~= t);
            assert(all.drop_last() =~= first);
            assert forall|k: int| 0 <= k < s.len() implies ({
                let before = all_to_luau(s.take(k), 0, Seq::empty(), reg, ed, what);
                value_to_luau(s[k], reg, before.ed).res
                    == Ok::<LuauView, Seq<char>>(#[trigger] all[k])
            }) by {
                if k < t.len() {
                    assert(first[k] == all[k]);
                    assert(t[k] == s[k]);
                assert(s.take(k) =~= t.take(k));
                }
            }
        }
    }
}

/// What one value more adds to those that are converted already.
proof fn lemma_all_to_v8(
    s: Seq<V8View>,
    x: V8View,
    i: int,
    done: Seq<JsView>,
    reg: RegistryView,
    ed: EmbedderDataContext,
    what: Seq<char>,
)
    requires
        0 <= i <= s.len(),
    ensures
        all_to_v8(s.push(x), i, done, reg, ed, what) == ({
            let before = all_to_v8(s, i, done, reg, ed, what);
            match before.res {
                Err(e) => before,
                Ok(all) => {
                    let one = value_to_v8(x, reg, before.ed);
                    match one.res {
                        Err(e) => Charged { ed: one.ed, res: Err(what + e) },
                        Ok(p) => Charged { ed: one.ed, res: Ok(all.push(p)) },
                    }
                },
            }
        }),
    decreases s.len() - i,
{
    let more = s.push(x);
    if i == s.len() {
        reveal_with_fuel(all_to_v8, 2);
    } else {
        assert(more[i] == s[i]);
        let one = value_to_v8(s[i], reg, ed);
        if one.res is Ok {
            lemma_all_to_v8(s, x, i + 1, done.push(one.res->Ok_0), reg, one.ed, what);
        }
    }
}

/// One value more to v8 is converted after the others, whatever it is, and stands behind them;
/// the text says what was being done where it cannot be.
pub proof fn law_values_to_v8_one_more(
    s: Seq<V8View>,
    x: V8View,
    reg: RegistryView,
    ed: EmbedderDataContext,
    what: Seq<char>,
)
    ensures
        all_to_v8(s.push(x), 0, Seq::empty(), reg, ed, what) == ({
            let before = all_to_v8(s, 0, Seq::empty(), reg, ed, what);
            match before.res {
                Err(e) => before,
                Ok(all) => {
                    let one = value_to_v8(x, reg, before.ed);
                    match one.res {
                        Err(e) => Charged { ed: one.ed, res: Err(what + e) },
                        Ok(p) => Charged { ed: one.ed, res: Ok(all.push(p)) },
                    }
                },
            }
        }),
{
    lemma_all_to_v8(s, x, 0, Seq::empty(), reg, ed, what);
}

/// Several values become as many values in v8, and each of them becomes what it becomes after those
/// before it and stands in its place.
pub proof fn law_values_to_v8_one_by_one(
    s: Seq<V8View>,
    reg: RegistryView,
    ed: EmbedderDataContext,
    what: Seq<char>,
)
    ensures
        all_to_v8(Seq::empty(), 0, Seq::empty(), reg, ed, what)
            == (Charged { ed, res: Ok(Seq::<JsView>::empty()) }),
        all_to_v8(s, 0, Seq::empty(), reg, ed, what).res matches Ok(all) ==> all.len() == s.len()
            && forall|k: int|
            0 <= k < s.len() ==> ({
                let before = all_to_v8(s.take(k), 0, Seq::empty(), reg, ed, what);
                value_to_v8(s[k], reg, before.ed).res == Ok::<JsView, Seq<char>>(#[trigger] all[k])
            }),
        all_to_v8(s, 0, Seq::empty(), reg, ed, what).ed.ed == ed.ed,
        all_to_v8(s, 0, Seq::empty(), reg, ed, what).ed.depth == ed.depth,
    decreases s.len(),
{
    if s.len() > 0 {
        let t = s.drop_last();
        assert(t.push(s.last()) =~= s);
        law_values_to_v8_one_more(t, s.last(), reg, ed, what);
        law_values_to_v8_one_by_one(t, reg, ed, what);
        let before = all_to_v8(t, 0, Seq::empty(), reg, ed, what);
        lemma_value_to_v8_keeps_place(s.last(), reg, before.ed);
        if all_to_v8(s, 0, Seq::empty(), reg, ed, what).res is Ok {
            let all = all_to_v8(s, 0, Seq::empty(), reg, ed, what).res->Ok_0;
            let first = before.res->Ok_0;
            assert(s.take(t.len() as int) =~= t);
            assert(all.drop_last() =~= first);
            assert forall|k: int| 0 <= k < s.len() implies ({
                let before = all_to_v8(s.take(k), 0, Seq::empty(), reg, ed, what);
                value_to_v8(s[k], reg, before.ed).res == Ok::<JsView, Seq<char>>(#[trigger] all[k])
            }) by {
                if k < t.len() {
                    assert(first[k] == all[k]);
                    assert(t[k] == s[k]);
                assert(s.take(k) =~= t.take(k));
                }
            }
        }
    }
}

/// What one value more adds to those that are converted already.
proof fn lemma_all_of_v8(
    s: Seq<JsView>,
    x: JsView,
    i: int,
    done: Seq<V8View>,
    reg: RegistryView,
    ed: EmbedderDataContext,
)
    requires
        0 <= i <= s.len(),
    ensures
        all_of_v8(s.push(x), i, done, reg, ed) == ({
            let before = all_of_v8(s, i, done, reg, ed);
            if before.err is Some {
                before
            } else {
                let one = value_of_v8(x, before.reg, before.ed);
                match one.res {
                    Err(e) => Taken {
                        reg: one.reg,
                        ed: one.ed,
                        done: before.done,
                        err: Some(
                            "Failed to convert argument "@ + decimal(s.len()) + ": "@ + e,
                        ),
                    },
                    Ok(p) => Taken {
                        reg: one.reg,
                        ed: one.ed,
                        done: before.done.push(p),
                        err: None,
                    },
                }
            }
        }),
    decreases s.len() - i,
{
    let more = s.push(x);
    if i == s.len() {
        reveal_with_fuel(all_of_v8, 2);
    } else {
        assert(more[i] == s[i]);
        let one = value_of_v8(s[i], reg, ed);
        if one.res is Ok {
            lemma_all_of_v8(s, x, i + 1, done.push(one.res->Ok_0), one.reg, one.ed);
        }
    }
}

/// One value more from v8 is converted after the others, whatever it is, and stands behind them;
/// where it cannot be, those before it are kept and the text says which it is.
pub proof fn law_values_from_v8_one_more(
    s: Seq<JsView>,
    x: JsView,
    reg: RegistryView,
    ed: EmbedderDataContext,
)
    ensures
        all_of_v8(s.push(x), 0, Seq::empty(), reg, ed) == ({
            let before = all_of_v8(s, 0, Seq::empty(), reg, ed);
            if before.err is Some {
                before
            } else {
                let one = value_of_v8(x, before.reg, before.ed);
                match one.res {
                    Err(e) => Taken {
                        reg: one.reg,
                        ed: one.ed,
                        done: before.done,
                        err: Some(
                            "Failed to convert argument "@ + decimal(s.len()) + ": "@ + e,
                        ),
                    },
                    Ok(p) => Taken {
                        reg: one.reg,
                        ed: one.ed,
                        done: before.done.push(p),
                        err: None,
                    },
                }
            }
        }),
{
    lemma_all_of_v8(s, x, 0, Seq::empty(), reg, ed);
}

/// Several values from v8 become as many values, and each of them, null and undefined like any
/// other, becomes what it becomes after those before it and stands in its place. Where one cannot be
/// converted, those before it are.
pub proof fn law_values_from_v8_one_by_one(
    s: Seq<JsView>,
    reg: RegistryView,
    ed: EmbedderDataContext,
)
    ensures
        all_of_v8(Seq::empty(), 0, Seq::empty(), reg, ed) == (Taken {
            reg,
            ed,
            done: Seq::empty(),
            err: None,
        }),
        ({
            let all = all_of_v8(s, 0, Seq::empty(), reg, ed);
            &&& all.err is None ==> all.done.len() == s.len()
            &&& all.err is Some ==> all.done.len() < s.len()
            &&& forall|k: int|
                0 <= k < all.done.len() ==> ({
                    let before = all_of_v8(s.take(k), 0, Seq::empty(), reg, ed);
                    value_of_v8(s[k], before.reg, before.ed).res == Ok::<V8View, Seq<char>>(
                        #[trigger] all.done[k],
                    )
                })
        }),
        all_of_v8(s, 0, Seq::empty(), reg, ed).ed.ed == ed.ed,
        all_of_v8(s, 0, Seq::empty(), reg, ed).ed.depth == ed.depth,
    decreases s.len(),
{
    if s.len() > 0 {
        let t = s.drop_last();
        assert(t.push(s.last()) =~= s);
        law_values_from_v8_one_more(t, s.last(), reg, ed);
        law_values_from_v8_one_by_one(t, reg, ed);
        let before = all_of_v8(t, 0, Seq::empty(), reg, ed);
        lemma_value_of_v8_keeps_place(s.last(), before.reg, before.ed);
        let all = all_of_v8(s, 0, Seq::empty(), reg, ed);
        assert(s.take(t.len() as int) =~= t);
        assert forall|k: int| 0 <= k < all.done.len() implies ({
            let before = all_of_v8(s.take(k), 0, Seq::empty(), reg, ed);
            value_of_v8(s[k], before.reg, before.ed).res == Ok::<V8View, Seq<char>>(
                #[trigger] all.done[k],
            )
        }) by {
            if k < t.len() {
                assert(before.done[k] == all.done[k]);
                assert(t[k] == s[k]);
                assert(s.take(k) =~= t.take(k));
            }
        }
    }
}

/// How much was charged before does not change what a value becomes, as long as there is enough left.
proof fn lemma_value_of_luau_with_less_charged(
    v: LuauView,
    reg: RegistryView,
    ed: EmbedderDataContext,
    less: EmbedderDataContext,
)
    requires
        less.ed == ed.ed,
        less.depth == ed.depth,
        less.size <= ed.size,
        value_of_luau(v, reg, ed).res is Ok,
    ensures
        value_of_luau(v, reg, less).res == value_of_luau(v, reg, ed).res,
        value_of_luau(v, reg, less).reg == value_of_luau(v, reg, ed).reg,
{
    assert(ed.sibling() == less.sibling());
}

/// Each of several values from Luau becomes what it becomes on its own, with an account of its own and
/// the objects that were handed out before it; nil becomes nil.
pub proof fn law_values_from_luau_on_their_own(
    s: Seq<LuauView>,
    reg: RegistryView,
    ed: EmbedderDataContext,
    what: Seq<char>,
)
    ensures
        all_of_luau(s, 0, Seq::empty(), reg, ed, what).res matches Ok(all) ==> all.len() == s.len()
            && forall|k: int|
            0 <= k < s.len() ==> ({
                let alone = EmbedderDataContext { ed: ed.ed, depth: ed.depth, size: 0 };
                let before = all_of_luau(s.take(k), 0, Seq::empty(), reg, ed, what).reg;
                &&& value_of_luau(s[k], before, alone).res
                    == Ok::<V8View, Seq<char>>(#[trigger] all[k])
                &&& s[k] is Nil ==> all[k] is Nil
            }),
{
    law_values_from_luau_one_by_one(s, reg, ed, what);
    let done = all_of_luau(s, 0, Seq::empty(), reg, ed, what);
    if done.res is Ok {
        let all = done.res->Ok_0;
        let alone = EmbedderDataContext { ed: ed.ed, depth: ed.depth, size: 0 };
        assert forall|k: int| 0 <= k < s.len() implies ({
            let before = all_of_luau(s.take(k), 0, Seq::empty(), reg, ed, what).reg;
            &&& value_of_luau(s[k], before, alone).res == Ok::<V8View, Seq<char>>(#[trigger] all[k])
            &&& s[k] is Nil ==> all[k] is Nil
        }) by {
            let before = all_of_luau(s.take(k), 0, Seq::empty(), reg, ed, what);
            law_values_from_luau_one_by_one(s.take(k), reg, ed, what);
            lemma_value_of_luau_with_less_charged(s[k], before.reg, before.ed, alone);
        }
    }
}

} // verus!
