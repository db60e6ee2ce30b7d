//! Modules are found by the segments of the path that they were added under.

use vstd::prelude::*;

use crate::denobridge::modloader::{code_of, joined, module_at, names_json};

verus! {

/// The parts of a path between its slashes, in order.
pub open spec fn segments_of(path: Seq<char>) -> Seq<Seq<char>>
    decreases path.len(),
{
    if path.len() == 0 {
        seq![Seq::empty()]
    } else {
        let before = segments_of(path.drop_last());
        if path.last() == '/' {
            before.push(Seq::empty())
        } else {
            before.drop_last().push(before.last().push(path.last()))
        }
    }
}

/// The path of no segment is empty, and the path of one segment is that segment.
pub proof fn law_path_of_one_segment(p: Seq<char>)
    ensures
        joined(Seq::empty()) == Seq::<char>::empty(),
        joined(seq![p]) == p,
{
}

/// A further segment stands behind the path of those before it and a slash.
pub proof fn law_path_of_one_segment_more(parts: Seq<Seq<char>>, p: Seq<char>)
    requires
        parts.len() > 0,
    ensures
        joined(parts.push(p)) == joined(parts) + seq!['/'] + p,
{
    reveal_strlit("/");
    assert("/"@ =~= seq!['/']);
    assert(parts.push(p).drop_last() =~= parts);
}

/// The path of two lists of segments, one behind the other, is the path of the first, a slash, and
/// the path of the second.
pub proof fn law_path_of_two_lists(a: Seq<Seq<char>>, b: Seq<Seq<char>>)
    requires
        a.len() > 0,
        b.len() > 0,
    ensures
        joined(a + b) == joined(a) + seq!['/'] + joined(b),
    decreases b.len(),
{
    let rest = b.drop_last();
    assert(b =~= rest.push(b.last()));
    assert(a + b =~= (a + rest).push(b.last()));
    law_path_of_one_segment_more(a + rest, b.last());
    if rest.len() == 0 {
        assert(a + rest =~= a);
        assert(b =~= seq![b.last()]);
        law_path_of_one_segment(b.last());
    } else {
        law_path_of_two_lists(a, rest);
        law_path_of_one_segment_more(rest, b.last());
        assert(joined(a + b) =~= joined(a) + seq!['/'] + joined(b));
    }
}

/// The path of some segments is as long as they are together, with a slash between each two.
pub proof fn law_path_has_every_segment(parts: Seq<Seq<char>>)
    requires
        parts.len() > 0,
    ensures
        joined(parts).len() == parts.fold_left(0nat, |n: nat, p: Seq<char>| n + p.len())
            + parts.len() - 1,
    decreases parts.len(),
{
    let rest = parts.drop_last();
    assert(parts =~= rest.push(parts.last()));
    if rest.len() > 0 {
        law_path_has_every_segment(rest);
        law_path_of_one_segment_more(rest, parts.last());
    } else {
        assert(parts =~= seq![parts.last()]);
        law_path_of_one_segment(parts.last());
        reveal_with_fuel(Seq::fold_left, 2);
    }
}

/// A path is what its parts are with a slash between each two, however many they are, and no part
/// holds a slash.
pub proof fn law_path_is_its_segments(path: Seq<char>)
    ensures
        segments_of(path).len() > 0,
        forall|k: int|
            0 <= k < segments_of(path).len() ==> !(#[trigger] segments_of(path)[k]).contains('/'),
        joined(segments_of(path)) == path,
    decreases path.len(),
{
    let all = segments_of(path);
    if path.len() == 0 {
        law_path_of_one_segment(Seq::empty());
        assert(path =~= Seq::empty());
    } else {
        let start = path.drop_last();
        let c = path.last();
        law_path_is_its_segments(start);
        let before = segments_of(start);
        let rest = before.drop_last();
        assert(path =~= start.push(c));
        assert(before =~= rest.push(before.last()));
        if c == '/' {
            law_path_of_one_segment_more(before, Seq::empty());
            assert(joined(all) =~= path);
        } else {
            assert(!before[before.len() - 1].contains('/'));
            assert(!before.last().push(c).contains('/')) by {
                let last = before.last();
                assert forall|j: int| 0 <= j < last.push(c).len() implies last.push(c)[j] != '/' by {
                    if j < last.len() {
                        assert(last.contains(last[j]));
                    }
                }
            }
            assert forall|k: int| 0 <= k < all.len() implies !(#[trigger] all[k]).contains('/') by {
                if k < rest.len() {
                    assert(all[k] == before[k]);
                }
            }
            if rest.len() == 0 {
                assert(before =~= seq![before.last()]);
                assert(all =~= seq![before.last().push(c)]);
                law_path_of_one_segment(before.last());
                law_path_of_one_segment(before.last().push(c));
            } else {
                law_path_of_one_segment_more(rest, before.last());
                law_path_of_one_segment_more(rest, before.last().push(c));
            }
            assert(joined(all) =~= path);
        }
    }
}

/// What the search among the first `n` modules finds is the last of that name among them.
proof fn lemma_module_at(s: Seq<(String, String)>, name: Seq<char>, n: int)
    requires
        0 <= n <= s.len(),
    ensures
        ({
            let at = module_at(s, name, n);
            &&& -1 <= at < n
            &&& at >= 0 ==> s[at].0@ == name
            &&& forall|k: int| at < k < n ==> (#[trigger] s[k]).0@ != name
        }),
    decreases n,
{
    if n > 0 && s[n - 1].0@ != name {
        lemma_module_at(s, name, n - 1);
    }
}

/// There is a module of a name where one was added under it, and nowhere else; its code is that of
/// the last that was added under the name.
pub proof fn law_last_module_of_a_name_counts(s: Seq<(String, String)>, name: Seq<char>)
    ensures
        code_of(s, name) is Some <==> exists|k: int| 0 <= k < s.len() && (#[trigger] s[k]).0@
            == name,
        forall|k: int|
            #![trigger s[k]]
            0 <= k < s.len() && s[k].0@ == name && (forall|j: int|
                k < j < s.len() ==> (#[trigger] s[j]).0@ != name) ==> code_of(s, name) == Some(
                s[k].1@,
            ),
{
    lemma_module_at(s, name, s.len() as int);
}

/// A module that is added is the one of its name, and leaves the modules of other names as they
/// were.
pub proof fn law_added_module_is_found(
    s: Seq<(String, String)>,
    name: String,
    code: String,
    other: Seq<char>,
)
    ensures
        code_of(s.push((name, code)), name@) == Some(code@),
        other != name@ ==> code_of(s.push((name, code)), other) == code_of(s, other),
{
    let more = s.push((name, code));
    lemma_module_at(more, name@, more.len() as int);
    lemma_module_at(more, other, more.len() as int);
    lemma_module_at(s, other, s.len() as int);
    if other != name@ {
        let a = module_at(s, other, s.len() as int);
        let b = module_at(more, other, more.len() as int);
        assert(more[s.len() as int].0 == name);
        if a >= 0 {
            assert(more[a] == s[a]);
        }
        if b >= 0 {
            assert(more[b] == s[b]);
        }
    }
}

/// A module is found by the parts of the path that it was added under, split at the slashes,
/// however many they are.
pub proof fn law_module_is_found_by_its_segments(
    s: Seq<(String, String)>,
    name: String,
    code: String,
)
    ensures
        code_of(s.push((name, code)), joined(segments_of(name@))) == Some(code@),
{
    law_path_is_its_segments(name@);
    law_added_module_is_found(s, name, code, name@);
}

/// A path names JSON where its last four letters are those of `json`, each in either case, and
/// a dot stands before them if anything does.
pub proof fn law_json_is_told_by_the_end(path: Seq<char>)
    ensures
        names_json(path) <==> {
            &&& path.len() >= 4
            &&& path[path.len() - 4] == 'j' || path[path.len() - 4] == 'J'
            &&& path[path.len() - 3] == 's' || path[path.len() - 3] == 'S'
            &&& path[path.len() - 2] == 'o' || path[path.len() - 2] == 'O'
            &&& path[path.len() - 1] == 'n' || path[path.len() - 1] == 'N'
            &&& path.len() == 4 || path[path.len() - 5] == '.'
        },
{
}

} // verus!
