//! When two texts are the same path.

use vstd::prelude::*;

use crate::text::chars_of;

verus! {

/// The parts of a text between slashes, from the `i`th character on: `part` is what has been seen
/// of the part that goes on there, behind those that are there.
pub open spec fn parts_from(
    s: Seq<char>,
    i: int,
    part: Seq<char>,
    done: Seq<Seq<char>>,
) -> Seq<Seq<char>>
    decreases s.len() - i,
{
    if i < 0 || i >= s.len() {
        done.push(part)
    } else if s[i] == '/' {
        parts_from(s, i + 1, Seq::empty(), done.push(part))
    } else {
        parts_from(s, i + 1, part.push(s[i]), done)
    }
}

/// The parts of a text between slashes.
pub open spec fn parts(s: Seq<char>) -> Seq<Seq<char>> {
    parts_from(s, 0, Seq::empty(), Seq::empty())
}

/// Whether a part names something: it is not empty, and is the current directory only where a
/// path begins with it.
pub open spec fn names(part: Seq<char>, first: bool) -> bool {
    part.len() > 0 && (first || part != seq!['.'])
}

/// The first `n` parts that name something.
pub open spec fn named(all: Seq<Seq<char>>, n: nat) -> Seq<Seq<char>>
    decreases n,
{
    if n == 0 {
        Seq::empty()
    } else if names(all[n - 1], n == 1) {
        named(all, (n - 1) as nat).push(all[n - 1])
    } else {
        named(all, (n - 1) as nat)
    }
}

/// What a path goes through.
pub open spec fn components(s: Seq<char>) -> Seq<Seq<char>> {
    named(parts(s), parts(s).len())
}

/// Whether a path begins at the root.
pub open spec fn rooted(s: Seq<char>) -> bool {
    s.len() > 0 && s[0] == '/'
}

/// Whether two texts are the same path: repeated and trailing slashes, and a dot that stands for
/// the current directory behind the beginning, do not matter.
pub open spec fn same_path(a: Seq<char>, b: Seq<char>) -> bool {
    rooted(a) == rooted(b) && components(a) == components(b)
}

/// Several texts.
spec fn views(s: Seq<Vec<char>>) -> Seq<Seq<char>> {
    s.map_values(|v: Vec<char>| v@)
}

fn split(s: &str) -> (r: Vec<Vec<char>>)
    ensures
        views(r@) == parts(s@),
{
    let chars = chars_of(s);
    let mut done: Vec<Vec<char>> = Vec::new();
    let mut part: Vec<char> = Vec::new();
    let mut i: usize = 0;
    assert(views(done@) =~= Seq::empty());
    while i < chars.len()
        invariant
            i <= chars@.len(),
            chars@ == s@,
            parts(s@) == parts_from(s@, i as int, part@, views(done@)),
        decreases chars@.len() - i,
    {
        let c = chars[i];
        let ghost before = done@;
        if c == '/' {
            done.push(part);
            assert(views(done@) =~= views(before).push(part@));
            part = Vec::new();
        } else {
            part.push(c);
        }
        i += 1;
    }
    let ghost before = done@;
    done.push(part);
    assert(views(done@) =~= views(before).push(part@));
    done
}

fn components_of(s: &str) -> (r: Vec<Vec<char>>)
    ensures
        views(r@) == components(s@),
{
    let all = split(s);
    let mut kept: Vec<Vec<char>> = Vec::new();
    let mut i: usize = 0;
    assert(views(kept@) =~= Seq::empty());
    while i < all.len()
        invariant
            i <= all@.len(),
            views(kept@) == named(views(all@), i as nat),
        decreases all@.len() - i,
    {
        let part = &all[i];
        let dot = part.len() == 1 && part[0] == '.';
        assert(dot <==> part@ =~= seq!['.']);
        assert(views(all@)[i as int] == part@);
        if part.len() > 0 && (i == 0 || !dot) {
            let ghost before = kept@;
            let copy = copied(part);
            kept.push(copy);
            assert(views(kept@) =~= views(before).push(part@));
        }
        i += 1;
    }
    kept
}

fn copied(part: &Vec<char>) -> (r: Vec<char>)
    ensures
        r@ == part@,
{
    let mut r: Vec<char> = Vec::new();
    let mut i: usize = 0;
    while i < part.len()
        invariant
            i <= part@.len(),
            r@ =~= part@.take(i as int),
        decreases part@.len() - i,
    {
        r.push(part[i]);
        i += 1;
    }
    assert(r@ =~= part@);
    r
}

fn same_part(a: &Vec<char>, b: &Vec<char>) -> (r: bool)
    ensures
        r <==> a@ == b@,
{
    if a.len() != b.len() {
        return false;
    }
    let mut i: usize = 0;
    while i < a.len()
        invariant
            i <= a@.len() == b@.len(),
            a@.take(i as int) =~= b@.take(i as int),
        decreases a@.len() - i,
    {
        if a[i] != b[i] {
            assert(a@[i as int] != b@[i as int]);
            return false;
        }
        i += 1;
    }
    assert(a@.take(i as int) =~= a@ && b@.take(i as int) =~= b@);
    true
}

fn is_rooted(s: &str) -> (r: bool)
    ensures
        r == rooted(s@),
{
    let chars = chars_of(s);
    chars.len() > 0 && chars[0] == '/'
}

/// Whether two texts are the same path.
pub fn is_same_path(a: &str, b: &str) -> (r: bool)
    ensures
        r <==> same_path(a@, b@),
{
    if is_rooted(a) != is_rooted(b) {
        return false;
    }
    let x = components_of(a);
    let y = components_of(b);
    if x.len() != y.len() {
        assert(views(x@).len() != views(y@).len());
        return false;
    }
    let mut i: usize = 0;
    while i < x.len()
        invariant
            i <= x@.len() == y@.len(),
            views(x@) == components(a@),
            views(y@) == components(b@),
            forall|k: int| 0 <= k < i ==> x@[k]@ == (#[trigger] y@[k])@,
        decreases x@.len() - i,
    {
        if !same_part(&x[i], &y[i]) {
            assert(views(x@)[i as int] != views(y@)[i as int]);
            return false;
        }
        i += 1;
    }
    assert(views(x@) =~= views(y@));
    true
}

} // verus!
