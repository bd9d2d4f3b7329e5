//! The order of strings, which is that of their UTF-8 bytes, and sorting by it.
use vstd::prelude::*;
use vstd::string::*;
use vstd::utf8::*;

use crate::text::{encoding_is_injective, texts};

verus! {

/// Lexicographic order on bytes, strict.
pub open spec fn earlier(x: Seq<u8>, y: Seq<u8>) -> bool
    decreases y.len(),
{
    if y.len() == 0 {
        false
    } else if x.len() == 0 {
        true
    } else if x[0] != y[0] {
        x[0] < y[0]
    } else {
        earlier(x.drop_first(), y.drop_first())
    }
}

/// Whether one text sorts strictly before another.
pub open spec fn before(a: Seq<char>, b: Seq<char>) -> bool {
    earlier(encode_utf8(a), encode_utf8(b))
}

proof fn earlier_irreflexive(x: Seq<u8>)
    ensures
        !earlier(x, x),
    decreases x.len(),
{
    if x.len() > 0 {
        earlier_irreflexive(x.drop_first());
    }
}

proof fn earlier_transitive(x: Seq<u8>, y: Seq<u8>, z: Seq<u8>)
    requires
        earlier(x, y),
        earlier(y, z),
    ensures
        earlier(x, z),
    decreases z.len(),
{
    if x.len() > 0 && x[0] == y[0] && y[0] == z[0] {
        earlier_transitive(x.drop_first(), y.drop_first(), z.drop_first());
    }
}

proof fn earlier_total(x: Seq<u8>, y: Seq<u8>)
    ensures
        earlier(x, y) || x == y || earlier(y, x),
    decreases x.len(),
{
    if x.len() > 0 && y.len() > 0 && x[0] == y[0] {
        earlier_total(x.drop_first(), y.drop_first());
        if x.drop_first() == y.drop_first() {
            assert(x == seq![x[0]] + x.drop_first());
            assert(y == seq![y[0]] + y.drop_first());
        }
    } else if x.len() == 0 && y.len() == 0 {
        assert(x == y);
    }
}

/// The order is strict and total: of two texts exactly one comes first, unless they are the same.
pub proof fn before_is_total(a: Seq<char>, b: Seq<char>)
    ensures
        before(a, b) || a == b || before(b, a),
        !(before(a, b) && before(b, a)),
        !before(a, a),
{
    let x = encode_utf8(a);
    let y = encode_utf8(b);
    earlier_total(x, y);
    encoding_is_injective(a, b);
    earlier_irreflexive(x);
    if earlier(x, y) && earlier(y, x) {
        earlier_transitive(x, y, x);
    }
}

/// The order is transitive.
pub proof fn before_is_transitive(a: Seq<char>, b: Seq<char>, c: Seq<char>)
    requires
        before(a, b),
        before(b, c),
    ensures
        before(a, c),
{
    earlier_transitive(encode_utf8(a), encode_utf8(b), encode_utf8(c));
}

/// Whether one string sorts strictly before another.
pub fn sorts_before(a: &str, b: &str) -> (r: bool)
    ensures
        r == before(a@, b@),
{
    let x = a.as_bytes();
    let y = b.as_bytes();
    let mut i: usize = 0;
    assert(x@.skip(0) == x@ && y@.skip(0) == y@);
    while i < x.len() && i < y.len()
        invariant
            i <= x@.len(),
            i <= y@.len(),
            before(a@, b@) == earlier(x@.skip(i as int), y@.skip(i as int)),
        decreases x@.len() - i,
    {
        if x[i] != y[i] {
            return x[i] < y[i];
        }
        assert(x@.skip(i as int).drop_first() == x@.skip(i + 1));
        assert(y@.skip(i as int).drop_first() == y@.skip(i + 1));
        i += 1;
    }
    i < y.len()
}

/// `t` put into `s` behind everything that does not sort after it.
pub open spec fn put_text(s: Seq<Seq<char>>, t: Seq<char>) -> Seq<Seq<char>>
    decreases s.len(),
{
    if s.len() == 0 || !before(t, s.last()) {
        s.push(t)
    } else {
        put_text(s.drop_last(), t).push(s.last())
    }
}

/// The texts of `s` in order.
pub open spec fn sorted_texts(s: Seq<Seq<char>>) -> Seq<Seq<char>>
    decreases s.len(),
{
    if s.len() == 0 {
        s
    } else {
        put_text(sorted_texts(s.drop_last()), s.last())
    }
}

/// Whether no text in `s` sorts before an earlier one.
pub open spec fn in_order(s: Seq<Seq<char>>) -> bool {
    forall|i: int, j: int| 0 <= i < j < s.len() ==> !before(#[trigger] s[j], #[trigger] s[i])
}

proof fn put_text_keeps(s: Seq<Seq<char>>, t: Seq<char>)
    requires
        in_order(s),
    ensures
        in_order(put_text(s, t)),
        put_text(s, t).to_multiset() == s.to_multiset().insert(t),
        put_text(s, t).len() == s.len() + 1,
        forall|u: Seq<char>| #[trigger]
            put_text(s, t).contains(u) ==> u == t || s.contains(u),
    decreases s.len(),
{
    broadcast use vstd::seq_lib::group_to_multiset_ensures;

    if s.len() == 0 || !before(t, s.last()) {
        let r = s.push(t);
        assert forall|i: int, j: int| 0 <= i < j < r.len() implies !before(#[trigger] r[j], #[trigger] r[i]) by {
            if j == s.len() && before(t, s[i]) {
                if i < s.len() - 1 {
                    before_is_total(s.last(), s[i]);
                    if before(s[i], s.last()) {
                        before_is_transitive(t, s[i], s.last());
                    } else {
                        assert(s[i] == s.last());
                    }
                }
            }
        }
        assert forall|u: Seq<char>| #[trigger] r.contains(u) implies u == t || s.contains(u) by {
            let k = choose|k: int| 0 <= k < r.len() && r[k] == u;
            if k < s.len() {
                assert(s[k] == u);
            }
        }
    } else {
        let d = s.drop_last();
        put_text_keeps(d, t);
        let p = put_text(d, t);
        let r = p.push(s.last());
        assert forall|i: int, j: int| 0 <= i < j < r.len() implies !before(#[trigger] r[j], #[trigger] r[i]) by {
            if j == p.len() {
                assert(p.contains(p[i]));
                if p[i] == t {
                    before_is_total(t, s.last());
                } else {
                    let k = choose|k: int| 0 <= k < d.len() && d[k] == p[i];
                    assert(s[k] == p[i]);
                }
            }
        }
        assert(s == d.push(s.last()));
        assert(r.to_multiset() =~= s.to_multiset().insert(t));
        assert forall|u: Seq<char>| #[trigger] r.contains(u) implies u == t || s.contains(u) by {
            let k = choose|k: int| 0 <= k < r.len() && r[k] == u;
            if k < p.len() {
                assert(p.contains(u));
                if u != t {
                    let m = choose|m: int| 0 <= m < d.len() && d[m] == u;
                    assert(s[m] == u);
                }
            } else {
                assert(s[s.len() - 1] == u);
            }
        }
    }
}

/// Sorting gives an ordered sequence of exactly the texts that went in.
pub proof fn sorting_orders_and_keeps(s: Seq<Seq<char>>)
    ensures
        in_order(sorted_texts(s)),
        sorted_texts(s).to_multiset() == s.to_multiset(),
        sorted_texts(s).len() == s.len(),
    decreases s.len(),
{
    broadcast use vstd::seq_lib::group_to_multiset_ensures;

    if s.len() > 0 {
        sorting_orders_and_keeps(s.drop_last());
        put_text_keeps(sorted_texts(s.drop_last()), s.last());
        assert(s == s.drop_last().push(s.last()));
    }
}

/// Puts `t` into an ordered list.
fn put(v: &mut Vec<String>, t: String)
    ensures
        texts(final(v)@) == put_text(texts(old(v)@), t@),
{
    let mut at: usize = v.len();
    let ghost s = texts(v@);
    let ghost tail = Seq::<Seq<char>>::empty();
    assert(s.take(at as int) == s);
    assert(put_text(s, t@) == put_text(s.take(at as int), t@) + tail);
    while at > 0 && sorts_before(t.as_str(), v[at - 1].as_str())
        invariant
            at <= v@.len(),
            s == texts(v@),
            tail == s.skip(at as int),
            put_text(s, t@) == put_text(s.take(at as int), t@) + tail,
        decreases at,
    {
        proof {
            assert(s.take(at as int).drop_last() == s.take(at - 1));
            assert(s.take(at as int).last() == s[at - 1]);
            assert(s[at - 1] == v@[at - 1]@);
            tail = s.skip(at - 1);
            assert(put_text(s.take(at - 1), t@).push(s[at - 1]) + s.skip(at as int) =~= put_text(
                s.take(at - 1),
                t@,
            ) + tail);
        }
        at -= 1;
    }
    assert(put_text(s.take(at as int), t@) == s.take(at as int).push(t@)) by {
        if at > 0 {
            assert(s.take(at as int).last() == v@[at - 1]@);
        }
    }
    let ghost t0 = t@;
    v.insert(at, t);
    assert(texts(v@) =~= s.take(at as int).push(t0) + tail);
}

/// The strings of `v` in order.
pub fn sorted(v: &Vec<String>) -> (r: Vec<String>)
    ensures
        texts(r@) == sorted_texts(texts(v@)),
{
    let mut out: Vec<String> = Vec::new();
    let mut i: usize = 0;
    assert(texts(out@) == texts(v@).take(0));
    while i < v.len()
        invariant
            i <= v@.len(),
            texts(out@) == sorted_texts(texts(v@).take(i as int)),
        decreases v@.len() - i,
    {
        assert(texts(v@).take(i + 1).drop_last() == texts(v@).take(i as int));
        put(&mut out, v[i].clone());
        i += 1;
    }
    assert(texts(v@).take(i as int) == texts(v@));
    out
}

/// One text sorts before another exactly if their bytes agree up to a place where the first has ended and
/// the other has not, or has the smaller byte.
pub proof fn what_sorts_before(a: Seq<char>, b: Seq<char>)
    ensures
        before(a, b) <==> exists|i: int|
            0 <= i <= encode_utf8(a).len() && i < encode_utf8(b).len() && #[trigger] encode_utf8(a).subrange(0, i)
                == encode_utf8(b).subrange(0, i) && (i < encode_utf8(a).len() ==> encode_utf8(a)[i] < encode_utf8(
                b,
            )[i]),
{
    let x = encode_utf8(a);
    let y = encode_utf8(b);
    first_difference(x, y);
    if exists|i: int| #[trigger] parts_at(x, y, i) {
        let i = choose|i: int| #[trigger] parts_at(x, y, i);
        assert(x.subrange(0, i) =~= y.subrange(0, i));
    }
    if exists|i: int|
        0 <= i <= x.len() && i < y.len() && #[trigger] x.subrange(0, i) == y.subrange(0, i) && (i < x.len()
            ==> x[i] < y[i]) {
        let i = choose|i: int|
            0 <= i <= x.len() && i < y.len() && #[trigger] x.subrange(0, i) == y.subrange(0, i) && (i < x.len()
                ==> x[i] < y[i]);
        assert forall|k: int| 0 <= k < i implies x[k] == y[k] by {
            assert(x.subrange(0, i)[k] == y.subrange(0, i)[k]);
        }
        assert(parts_at(x, y, i));
    }
}

spec fn parts_at(x: Seq<u8>, y: Seq<u8>, i: int) -> bool {
    &&& 0 <= i <= x.len() && i < y.len()
    &&& forall|k: int| 0 <= k < i ==> x[k] == y[k]
    &&& i < x.len() ==> x[i] < y[i]
}

proof fn first_difference(x: Seq<u8>, y: Seq<u8>)
    ensures
        earlier(x, y) <==> exists|i: int| #[trigger] parts_at(x, y, i),
    decreases x.len(),
{
    if x.len() == 0 || y.len() == 0 {
        if y.len() > 0 {
            assert(parts_at(x, y, 0));
        }
    } else if x[0] != y[0] {
        if x[0] < y[0] {
            assert(parts_at(x, y, 0));
        }
        if exists|i: int| #[trigger] parts_at(x, y, i) {
            let i = choose|i: int| #[trigger] parts_at(x, y, i);
            assert(i == 0);
        }
    } else {
        let p = x.drop_first();
        let q = y.drop_first();
        first_difference(p, q);
        if exists|i: int| #[trigger] parts_at(p, q, i) {
            let i = choose|i: int| #[trigger] parts_at(p, q, i);
            assert forall|k: int| 0 <= k < i + 1 implies x[k] == y[k] by {
                if k > 0 {
                    assert(p[k - 1] == q[k - 1]);
                }
            }
            assert(parts_at(x, y, i + 1));
        }
        if exists|i: int| #[trigger] parts_at(x, y, i) {
            let i = choose|i: int| #[trigger] parts_at(x, y, i);
            assert(i > 0);
            assert forall|k: int| 0 <= k < i - 1 implies p[k] == q[k] by {
                assert(x[k + 1] == y[k + 1]);
            }
            assert(parts_at(p, q, i - 1));
        }
    }
}

/// Texts that are sorted are the same texts, each as often as before, and none comes before one that
/// stands in front of it.
pub proof fn what_sorting_does(s: Seq<Seq<char>>)
    ensures
        sorted_texts(s).to_multiset() == s.to_multiset(),
        forall|i: int, j: int|
            0 <= i < j < sorted_texts(s).len() ==> before(
                #[trigger] sorted_texts(s)[i],
                #[trigger] sorted_texts(s)[j],
            ) || sorted_texts(s)[i] == sorted_texts(s)[j],
{
    sorting_orders_and_keeps(s);
    let t = sorted_texts(s);
    assert forall|i: int, j: int| 0 <= i < j < t.len() implies before(#[trigger] t[i], #[trigger] t[j]) || t[i]
        == t[j] by {
        before_is_total(t[i], t[j]);
    }
}

} // verus!
