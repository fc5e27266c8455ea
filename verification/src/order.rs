//! Texts in the order of their code points, which is also the order of their bytes.

use crate::strings;
use crate::text;
use vstd::prelude::*;

verus! {

/// The list with one more name, in the order of their code points, behind those that are
/// the same.
pub open spec fn sort_in(list: Seq<Seq<char>>, one: Seq<char>) -> Seq<Seq<char>>
    decreases list.len(),
{
    if list.len() == 0 || text::text_le(list.last(), one) {
        list.push(one)
    } else {
        sort_in(list.drop_last(), one).push(list.last())
    }
}

/// The texts in order.
pub open spec fn sorted(list: Seq<Seq<char>>) -> Seq<Seq<char>>
    decreases list.len(),
{
    if list.len() == 0 {
        Seq::empty()
    } else {
        sort_in(sorted(list.drop_last()), list.last())
    }
}

/// Whether `a` comes before or is `b`.
pub fn text_le(a: &str, b: &str) -> (r: bool)
    ensures
        r == text::text_le(a@, b@),
{
    let x = strings::chars(a);
    let y = strings::chars(b);
    let mut i: usize = 0;
    assert(a@.subrange(0, a@.len() as int) =~= a@);
    assert(b@.subrange(0, b@.len() as int) =~= b@);
    while i < x.len() && i < y.len()
        invariant
            i <= x@.len(),
            i <= y@.len(),
            x@ == a@,
            y@ == b@,
            text::text_le(a@, b@) == text::text_le(
                a@.subrange(i as int, a@.len() as int),
                b@.subrange(i as int, b@.len() as int),
            ),
        decreases x.len() - i,
    {
        let ghost p = a@.subrange(i as int, a@.len() as int);
        let ghost q = b@.subrange(i as int, b@.len() as int);
        assert(p[0] == x@[i as int] && q[0] == y@[i as int]);
        if x[i] != y[i] {
            return x[i] < y[i];
        }
        assert(p.subrange(1, p.len() as int) =~= a@.subrange(i + 1, a@.len() as int));
        assert(q.subrange(1, q.len() as int) =~= b@.subrange(i + 1, b@.len() as int));
        i = i + 1;
    }
    i == x.len()
}

proof fn sort_in_is_insert(list: Seq<Seq<char>>, one: Seq<char>, pos: int)
    requires
        0 <= pos <= list.len(),
        pos > 0 ==> text::text_le(list[pos - 1], one),
        forall|i: int| pos <= i < list.len() ==> !text::text_le(#[trigger] list[i], one),
    ensures
        sort_in(list, one) == list.insert(pos, one),
    decreases list.len(),
{
    if pos == list.len() {
        assert(list.insert(pos, one) =~= list.push(one));
    } else {
        let t = list.drop_last();
        assert forall|i: int| pos <= i < t.len() implies !text::text_le(#[trigger] t[i], one) by {
            assert(t[i] == list[i]);
        }
        assert(!text::text_le(list[list.len() - 1], one));
        sort_in_is_insert(t, one, pos);
        assert(t.insert(pos, one).push(list.last()) =~= list.insert(pos, one));
    }
}

/// The strings in order.
pub fn sort(list: &Vec<String>) -> (r: Vec<String>)
    ensures
        text::texts(r@) == sorted(text::texts(list@)),
{
    let ghost all = text::texts(list@);
    let mut out: Vec<String> = Vec::new();
    let mut i: usize = 0;
    assert(text::texts(out@) =~= Seq::<Seq<char>>::empty());
    while i < list.len()
        invariant
            i <= list@.len(),
            all == text::texts(list@),
            text::texts(out@) == sorted(all.subrange(0, i as int)),
        decreases list.len() - i,
    {
        let ghost next = all.subrange(0, i + 1);
        assert(next.drop_last() =~= all.subrange(0, i as int));
        assert(next.last() == list@[i as int]@);
        let ghost before = text::texts(out@);
        let one = strings::copy(list[i].as_str());
        let ghost onev = one@;
        let mut pos: usize = out.len();
        while pos > 0 && !text_le(out[pos - 1].as_str(), one.as_str())
            invariant
                pos <= out@.len(),
                before == text::texts(out@),
                forall|k: int|
                    pos <= k < out@.len() ==> !text::text_le(#[trigger] before[k], one@),
            decreases pos,
        {
            assert(before[pos - 1] == out@[pos - 1]@);
            pos = pos - 1;
        }
        assert(pos > 0 ==> before[pos - 1] == out@[pos - 1]@);
        proof {
            sort_in_is_insert(before, onev, pos as int);
        }
        out.insert(pos, one);
        assert(text::texts(out@) =~= before.insert(pos as int, onev));
        i = i + 1;
    }
    assert(all.subrange(0, i as int) =~= all);
    out
}

/// Of two texts one comes first.
pub proof fn text_order_is_total(a: Seq<char>, b: Seq<char>)
    ensures
        text::text_le(a, b) || text::text_le(b, a),
    decreases a.len(),
{
    if a.len() > 0 && b.len() > 0 {
        if a[0] == b[0] {
            text_order_is_total(a.subrange(1, a.len() as int), b.subrange(1, b.len() as int));
        }
    }
}

/// The order of texts is transitive.
pub proof fn text_order_is_transitive(a: Seq<char>, b: Seq<char>, c: Seq<char>)
    requires
        text::text_le(a, b),
        text::text_le(b, c),
    ensures
        text::text_le(a, c),
    decreases a.len(),
{
    if a.len() > 0 && b.len() > 0 && c.len() > 0 && a[0] == b[0] && b[0] == c[0] {
        text_order_is_transitive(
            a.subrange(1, a.len() as int),
            b.subrange(1, b.len() as int),
            c.subrange(1, c.len() as int),
        );
    }
}

/// In order.
pub open spec fn is_sorted(list: Seq<Seq<char>>) -> bool {
    forall|i: int, j: int|
        0 <= i < j < list.len() ==> text::text_le(#[trigger] list[i], #[trigger] list[j])
}

proof fn sort_in_keeps_order(list: Seq<Seq<char>>, one: Seq<char>)
    requires
        is_sorted(list),
    ensures
        is_sorted(sort_in(list, one)),
        sort_in(list, one).len() == list.len() + 1,
        forall|x: Seq<char>| #[trigger]
            sort_in(list, one).contains(x) <==> list.contains(x) || x == one,
    decreases list.len(),
{
    let out = sort_in(list, one);
    if list.len() == 0 || text::text_le(list.last(), one) {
        assert forall|i: int, j: int| 0 <= i < j < out.len() implies text::text_le(
            #[trigger] out[i],
            #[trigger] out[j],
        ) by {
            if j == list.len() && i < list.len() - 1 {
                assert(text::text_le(list[i], list[list.len() - 1]));
                text_order_is_transitive(list[i], list.last(), one);
            }
        }
        assert forall|x: Seq<char>| #[trigger] out.contains(x) <==> list.contains(x) || x == one by {
            assert(out[list.len() as int] == one);
            if list.contains(x) {
                let i = choose|i: int| 0 <= i < list.len() && list[i] == x;
                assert(out[i] == x);
            }
            if out.contains(x) {
                let i = choose|i: int| 0 <= i < out.len() && out[i] == x;
                if i < list.len() {
                    assert(list[i] == x);
                }
            }
        }
    } else {
        let t = list.drop_last();
        let last = list.last();
        assert forall|i: int, j: int| 0 <= i < j < t.len() implies text::text_le(
            #[trigger] t[i],
            #[trigger] t[j],
        ) by {
            assert(text::text_le(list[i], list[j]));
        }
        sort_in_keeps_order(t, one);
        let u = sort_in(t, one);
        assert(out == u.push(last));
        text_order_is_total(one, last);
        assert forall|i: int, j: int| 0 <= i < j < out.len() implies text::text_le(
            #[trigger] out[i],
            #[trigger] out[j],
        ) by {
            if j < u.len() {
                assert(text::text_le(u[i], u[j]));
            } else {
                assert(u.contains(u[i]));
                if t.contains(u[i]) {
                    let k = choose|k: int| 0 <= k < t.len() && t[k] == u[i];
                    assert(text::text_le(list[k], list[list.len() - 1]));
                }
            }
        }
        assert forall|x: Seq<char>| #[trigger] out.contains(x) <==> list.contains(x) || x == one by {
            if out.contains(x) {
                let i = choose|i: int| 0 <= i < out.len() && out[i] == x;
                if i < u.len() {
                    assert(u[i] == x);
                    assert(u.contains(x));
                    if t.contains(x) {
                        let k = choose|k: int| 0 <= k < t.len() && t[k] == x;
                        assert(list[k] == x);
                    }
                } else {
                    assert(list[list.len() - 1] == x);
                }
            }
            if x == one || list.contains(x) {
                if list.contains(x) {
                    let i = choose|i: int| 0 <= i < list.len() && list[i] == x;
                    if i < t.len() {
                        assert(t[i] == x);
                    } else {
                        assert(out[out.len() - 1] == x);
                    }
                }
                if x == one || t.contains(x) {
                    assert(u.contains(x));
                    let k = choose|k: int| 0 <= k < u.len() && u[k] == x;
                    assert(out[k] == x);
                }
            }
        }
    }
}

/// Sorting puts texts in order and keeps exactly those there were.
pub proof fn sorting_sorts(list: Seq<Seq<char>>)
    ensures
        is_sorted(sorted(list)),
        forall|x: Seq<char>| #[trigger] sorted(list).contains(x) <==> list.contains(x),
        sorted(list).len() == list.len(),
    decreases list.len(),
{
    if list.len() > 0 {
        let t = list.drop_last();
        sorting_sorts(t);
        sort_in_keeps_order(sorted(t), list.last());
        assert forall|x: Seq<char>| #[trigger] sorted(list).contains(x) <==> list.contains(x) by {
            assert(list[list.len() - 1] == list.last());
            assert(sorted(t).contains(x) <==> t.contains(x));
            if list.contains(x) {
                let i = choose|i: int| 0 <= i < list.len() && list[i] == x;
                if i < t.len() {
                    assert(t[i] == x);
                }
            }
            if t.contains(x) {
                let i = choose|i: int| 0 <= i < t.len() && t[i] == x;
                assert(list[i] == x);
            }
        }
    }
}

/// Texts are in the order of their code points: where two first differ, the smaller
/// character comes first, and a text comes before what continues it.
pub proof fn the_first_difference_decides(p: Seq<char>, x: char, s: Seq<char>, y: char, t: Seq<char>)
    requires
        x < y,
    ensures
        text::text_le(p.push(x) + s, p.push(y) + t),
        !text::text_le(p.push(y) + t, p.push(x) + s),
        text::text_le(p, p + s),
        s.len() > 0 ==> !text::text_le(p + s, p),
    decreases p.len(),
{
    let a = p.push(x) + s;
    let b = p.push(y) + t;
    let c = p + s;
    if p.len() > 0 {
        let q = p.subrange(1, p.len() as int);
        the_first_difference_decides(q, x, s, y, t);
        assert(a.subrange(1, a.len() as int) =~= q.push(x) + s);
        assert(b.subrange(1, b.len() as int) =~= q.push(y) + t);
        assert(c.subrange(1, c.len() as int) =~= q + s);
        assert(c[0] == p[0]);
    } else {
        assert(a[0] == x && b[0] == y);
    }
}

proof fn sort_in_counts(list: Seq<Seq<char>>, one: Seq<char>)
    ensures
        sort_in(list, one).to_multiset() == list.to_multiset().insert(one),
    decreases list.len(),
{
    broadcast use vstd::seq_lib::group_to_multiset_ensures;

    if !(list.len() == 0 || text::text_le(list.last(), one)) {
        let t = list.drop_last();
        sort_in_counts(t, one);
        assert(t.push(list.last()) =~= list);
        assert(t.to_multiset().insert(one).insert(list.last()) =~= t.to_multiset().insert(
            list.last(),
        ).insert(one));
    }
}

/// Sorting keeps each text as often as it was there.
pub proof fn sorting_keeps_what_was_there(list: Seq<Seq<char>>)
    ensures
        sorted(list).to_multiset() == list.to_multiset(),
    decreases list.len(),
{
    broadcast use vstd::seq_lib::group_to_multiset_ensures;

    if list.len() > 0 {
        let t = list.drop_last();
        sorting_keeps_what_was_there(t);
        sort_in_counts(sorted(t), list.last());
        assert(t.push(list.last()) =~= list);
    } else {
        assert(sorted(list) =~= list);
    }
}

} // verus!
