//! The order of `String`: the order of the code points, which is the order
//! of the UTF-8 bytes. Lists of texts are sorted by it.

use vstd::prelude::*;
use vstd::relations::{sorted_by, total_ordering};
use vstd::seq_lib::{lemma_sorted_unique, to_multiset_build, to_multiset_insert};
use crate::text::{chars_of, string_views};

verus! {

/// `a` comes before `b`, or is `b`, in the order of `String`.
pub open spec fn text_le(a: Seq<char>, b: Seq<char>) -> bool
    decreases a.len(),
{
    if a.len() == 0 {
        true
    } else if b.len() == 0 {
        false
    } else if a[0] != b[0] {
        a[0] < b[0]
    } else {
        text_le(a.drop_first(), b.drop_first())
    }
}

pub open spec fn text_order() -> spec_fn(Seq<char>, Seq<char>) -> bool {
    |a: Seq<char>, b: Seq<char>| text_le(a, b)
}

/// The texts in the order of `String`, as `Vec::sort` leaves them.
pub open spec fn sorted_texts(s: Seq<Seq<char>>) -> Seq<Seq<char>> {
    s.sort_by(text_order())
}

pub proof fn lemma_le_refl(a: Seq<char>)
    ensures
        text_le(a, a),
    decreases a.len(),
{
    if a.len() > 0 {
        lemma_le_refl(a.drop_first());
    }
}

pub proof fn lemma_le_antisym(a: Seq<char>, b: Seq<char>)
    requires
        text_le(a, b),
        text_le(b, a),
    ensures
        a == b,
    decreases a.len(),
{
    if a.len() > 0 && b.len() > 0 {
        if a[0] == b[0] {
            lemma_le_antisym(a.drop_first(), b.drop_first());
            assert(a =~= seq![a[0]] + a.drop_first());
            assert(b =~= seq![b[0]] + b.drop_first());
        } else {
            assert(a[0] < b[0] || b[0] < a[0]);
        }
    } else {
        assert(a =~= b);
    }
}

pub proof fn lemma_le_trans(a: Seq<char>, b: Seq<char>, c: Seq<char>)
    requires
        text_le(a, b),
        text_le(b, c),
    ensures
        text_le(a, c),
    decreases a.len(),
{
    if a.len() > 0 && b.len() > 0 && c.len() > 0 {
        if a[0] == b[0] && b[0] == c[0] {
            lemma_le_trans(a.drop_first(), b.drop_first(), c.drop_first());
        } else if a[0] == c[0] {
            assert(a[0] < b[0] || b[0] < c[0]);
            assert(b[0] <= c[0]);
            assert(a[0] <= b[0]);
            assert(a[0] == b[0]);
        }
    }
}

pub proof fn lemma_le_total(a: Seq<char>, b: Seq<char>)
    ensures
        text_le(a, b) || text_le(b, a),
    decreases a.len(),
{
    if a.len() > 0 && b.len() > 0 {
        if a[0] == b[0] {
            lemma_le_total(a.drop_first(), b.drop_first());
        } else {
            assert(a[0] < b[0] || b[0] < a[0]);
        }
    }
}

/// The order of `String` is a total order.
pub proof fn lemma_text_order_total()
    ensures
        total_ordering(text_order()),
{
    assert forall|x: Seq<char>| #[trigger] text_order()(x, x) by {
        lemma_le_refl(x);
    }
    assert forall|x: Seq<char>, y: Seq<char>| #[trigger]
        text_order()(x, y) && #[trigger] text_order()(y, x) implies x == y by {
        lemma_le_antisym(x, y);
    }
    assert forall|x: Seq<char>, y: Seq<char>, z: Seq<char>| #[trigger]
        text_order()(x, y) && #[trigger] text_order()(y, z) implies text_order()(x, z) by {
        lemma_le_trans(x, y, z);
    }
    assert forall|x: Seq<char>, y: Seq<char>| #[trigger]
        text_order()(x, y) || #[trigger] text_order()(y, x) by {
        lemma_le_total(x, y);
    }
}

/// `a` comes before `b`, or is `b`.
pub fn text_le_exec(a: &String, b: &String) -> (r: bool)
    ensures
        r == text_le(a@, b@),
{
    let x = chars_of(a.as_str());
    let y = chars_of(b.as_str());
    let mut i: usize = 0;
    assert(x@.skip(0) =~= x@);
    assert(y@.skip(0) =~= y@);
    loop
        invariant
            i <= x.len(),
            i <= y.len(),
            x@ == a@,
            y@ == b@,
            text_le(x@.skip(i as int), y@.skip(i as int)) == text_le(a@, b@),
        decreases x.len() - i,
    {
        if i == x.len() {
            return true;
        }
        if i == y.len() {
            return false;
        }
        assert(x@.skip(i as int)[0] == x@[i as int]);
        assert(y@.skip(i as int)[0] == y@[i as int]);
        if x[i] != y[i] {
            return x[i] < y[i];
        }
        assert(x@.skip(i as int).drop_first() =~= x@.skip(i + 1));
        assert(y@.skip(i as int).drop_first() =~= y@.skip(i + 1));
        i += 1;
    }
}

/// The strings of `v` in the order of `String`.
pub fn sort_texts(v: &Vec<String>) -> (r: Vec<String>)
    ensures
        string_views(r@) == sorted_texts(string_views(v@)),
{
    let ghost src = string_views(v@);
    let mut r: Vec<String> = Vec::new();
    let mut i: usize = 0;
    proof {
        lemma_text_order_total();
        assert(src.take(0) =~= Seq::<Seq<char>>::empty());
        assert(string_views(r@) =~= Seq::<Seq<char>>::empty());
    }
    while i < v.len()
        invariant
            i <= v.len(),
            src == string_views(v@),
            total_ordering(text_order()),
            sorted_by(string_views(r@), text_order()),
            string_views(r@).to_multiset() == src.take(i as int).to_multiset(),
        decreases v.len() - i,
    {
        let x = v[i].clone();
        let ghost rv = string_views(r@);
        let mut k: usize = 0;
        while k < r.len() && text_le_exec(&r[k], &x)
            invariant
                k <= r.len(),
                rv == string_views(r@),
                forall|j: int| 0 <= j < k ==> text_le(#[trigger] rv[j], x@),
            decreases r.len() - k,
        {
            k += 1;
        }
        proof {
            if k < r.len() {
                lemma_le_total(rv[k as int], x@);
            }
        }
        r.insert(k, x);
        proof {
            let nv = string_views(r@);
            assert(nv =~= rv.insert(k as int, x@));
            assert forall|a: int, b: int| 0 <= a < b < nv.len() implies #[trigger] text_order()(
                nv[a],
                nv[b],
            ) by {
                if b < k {
                } else if b == k {
                } else {
                    assert(nv[b] == rv[b - 1]);
                    assert(text_le(rv[k as int], rv[b - 1])) by {
                        if k < b - 1 {
                            assert(text_order()(rv[k as int], rv[b - 1]));
                        } else {
                            lemma_le_refl(rv[k as int]);
                        }
                    }
                    if a < k {
                        assert(nv[a] == rv[a]);
                        lemma_le_trans(nv[a], x@, rv[k as int]);
                        lemma_le_trans(nv[a], rv[k as int], nv[b]);
                    } else if a == k {
                        lemma_le_trans(x@, rv[k as int], nv[b]);
                    } else {
                        assert(nv[a] == rv[a - 1]);
                        assert(text_order()(rv[a - 1], rv[b - 1]));
                    }
                }
            }
            to_multiset_insert(rv, k as int, x@);
            assert(src.take(i + 1) =~= src.take(i as int).push(src[i as int]));
            to_multiset_build(src.take(i as int), src[i as int]);
        }
        i += 1;
    }
    proof {
        assert(src.take(v.len() as int) =~= src);
        src.lemma_sort_by_ensures(text_order());
        lemma_sorted_unique(string_views(r@), sorted_texts(src), text_order());
    }
    r
}

} // verus!
