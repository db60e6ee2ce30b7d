//! When two texts are the same path.

use vstd::prelude::*;

use crate::base::path::{components, named, parts, parts_from, rooted, same_path};

verus! {

/// One character more either ends the last part or belongs to it.
proof fn lemma_parts_from(s: Seq<char>, c: char, i: int, part: Seq<char>, done: Seq<Seq<char>>)
    requires
        0 <= i <= s.len(),
    ensures
        parts_from(s, i, part, done).len() > 0,
        parts_from(s.push(c), i, part, done) == ({
            let before = parts_from(s, i, part, done);
            if c == '/' {
                before.push(Seq::empty())
            } else {
                before.drop_last().push(before.last().push(c))
            }
        }),
    decreases s.len() - i,
{
    let more = s.push(c);
    if i == s.len() {
        reveal_with_fuel(parts_from, 2);
        assert(done.push(part).drop_last() =~= done);
    } else {
        assert(more[i] == s[i]);
        if s[i] == '/' {
            lemma_parts_from(s, c, i + 1, Seq::empty(), done.push(part));
        } else {
            lemma_parts_from(s, c, i + 1, part.push(s[i]), done);
        }
    }
}

/// What stands behind a slash and holds none is a part of its own.
proof fn lemma_parts_behind_slash(a: Seq<char>, b: Seq<char>)
    requires
        !b.contains('/'),
    ensures
        parts(a + seq!['/'] + b) == parts(a).push(b),
    decreases b.len(),
{
    if b.len() == 0 {
        assert(a + seq!['/'] + b =~= a.push('/'));
        lemma_parts_from(a, '/', 0, Seq::empty(), Seq::empty());
        assert(b =~= Seq::empty());
    } else {
        let rest = b.drop_last();
        assert(!rest.contains('/')) by {
            if rest.contains('/') {
                let k = choose|k: int| 0 <= k < rest.len() && rest[k] == '/';
                assert(b[k] == '/');
            }
        }
        lemma_parts_behind_slash(a, rest);
        assert(b.last() != '/') by {
            assert(b[b.len() - 1] == b.last());
        }
        let s = a + seq!['/'] + rest;
        assert(a + seq!['/'] + b =~= s.push(b.last()));
        lemma_parts_from(s, b.last(), 0, Seq::empty(), Seq::empty());
        assert(parts(a).push(rest).drop_last() =~= parts(a));
        assert(rest.push(b.last()) =~= b);
    }
}

/// What holds no slash is one part.
proof fn lemma_parts_without_slash(b: Seq<char>)
    requires
        !b.contains('/'),
    ensures
        parts(b) == seq![b],
    decreases b.len(),
{
    if b.len() > 0 {
        let rest = b.drop_last();
        assert(!rest.contains('/')) by {
            if rest.contains('/') {
                let k = choose|k: int| 0 <= k < rest.len() && rest[k] == '/';
                assert(b[k] == '/');
            }
        }
        lemma_parts_without_slash(rest);
        assert(b.last() != '/') by {
            assert(b[b.len() - 1] == b.last());
        }
        lemma_parts_from(rest, b.last(), 0, Seq::empty(), Seq::empty());
        assert(rest.push(b.last()) =~= b);
        assert(seq![rest].drop_last().push(b) =~= seq![b]);
    } else {
        assert(b =~= Seq::empty());
        assert(parts(b) =~= seq![b]);
    }
}

/// One part more at the end does not change what those before it name.
proof fn lemma_named(all: Seq<Seq<char>>, p: Seq<char>, n: nat)
    requires
        n <= all.len(),
    ensures
        named(all.push(p), n) == named(all, n),
    decreases n,
{
    if n > 0 {
        assert(all.push(p)[n - 1] == all[n - 1]);
        lemma_named(all, p, (n - 1) as nat);
    }
}

/// A path without a slash goes through itself, and through nothing where it is empty. What stands
/// behind one slash more comes last, unless it is empty or a dot: then the path goes through the same.
pub proof fn law_path_goes_through_its_parts(a: Seq<char>, b: Seq<char>)
    requires
        !b.contains('/'),
    ensures
        components(b) == if b.len() == 0 {
            Seq::empty()
        } else {
            seq![b]
        },
        components(a + seq!['/'] + b) == if b.len() == 0 || b == seq!['.'] {
            components(a)
        } else {
            components(a).push(b)
        },
{
    lemma_parts_without_slash(b);
    reveal_with_fuel(named, 2);
    assert(components(b) =~= if b.len() == 0 {
        Seq::empty()
    } else {
        seq![b]
    });
    lemma_parts_behind_slash(a, b);
    lemma_named(parts(a), b, parts(a).len());
    if a.len() > 0 {
        lemma_parts_from(a.drop_last(), a.last(), 0, Seq::empty(), Seq::empty());
        assert(a.drop_last().push(a.last()) =~= a);
    }
}

/// A path begins at the root where its first character is a slash.
pub proof fn law_rooted_by_the_first_slash(a: Seq<char>)
    ensures
        rooted(seq!['/'] + a),
        a.len() > 0 && a[0] != '/' ==> !rooted(a),
        a.len() == 0 ==> !rooted(a),
{
}

/// A slash at the end, a second slash and a dot behind a slash do not make another path.
pub proof fn law_idle_parts_do_not_matter(a: Seq<char>)
    requires
        a.len() > 0,
    ensures
        same_path(a + seq!['/'], a),
        same_path(a + seq!['/', '/'], a + seq!['/']),
        same_path(a + seq!['/', '.'], a),
{
    law_path_goes_through_its_parts(a, Seq::empty());
    assert(a + seq!['/'] + Seq::<char>::empty() =~= a + seq!['/']);
    law_path_goes_through_its_parts(a + seq!['/'], Seq::empty());
    assert(a + seq!['/'] + seq!['/'] + Seq::<char>::empty() =~= a + seq!['/', '/']);
    assert(!seq!['.'].contains('/'));
    law_path_goes_through_its_parts(a, seq!['.']);
    assert(a + seq!['/'] + seq!['.'] =~= a + seq!['/', '.']);
}

/// Two paths that end in names are the same where the names are and the paths before them are.
pub proof fn law_same_path_by_the_last_name(
    a: Seq<char>,
    x: Seq<char>,
    b: Seq<char>,
    y: Seq<char>,
)
    requires
        a.len() > 0,
        b.len() > 0,
        x.len() > 0,
        y.len() > 0,
        !x.contains('/'),
        !y.contains('/'),
        x != seq!['.'],
        y != seq!['.'],
    ensures
        same_path(a + seq!['/'] + x, b + seq!['/'] + y) <==> x == y && same_path(a, b),
{
    law_path_goes_through_its_parts(a, x);
    law_path_goes_through_its_parts(b, y);
    let p = components(a).push(x);
    let q = components(b).push(y);
    if p == q {
        assert(p.drop_last() =~= components(a));
        assert(q.drop_last() =~= components(b));
        assert(p.last() == x && q.last() == y);
    }
}

} // verus!
