//! Sorting by a key, with equal items in the order in which they came.
use vstd::prelude::*;

verus! {

/// Items with a place in an order.
pub trait Keyed: Sized {
    /// Smaller keys come first.
    spec fn key(&self) -> int;

    /// True when this item may stand before the other.
    fn not_after(&self, other: &Self) -> (yes: bool)
        ensures
            yes == (self.key() <= other.key()),
    ;
}

/// Where `x` goes into `s`: behind the last item that may stand before it.
pub open spec fn place_for<T: Keyed>(s: Seq<T>, x: T) -> int
    decreases s.len(),
{
    if s.len() == 0 || s.last().key() <= x.key() {
        s.len() as int
    } else {
        place_for(s.drop_last(), x)
    }
}

/// The items of `s` by key, equal ones in the order in which they stand in `s`.
pub open spec fn in_order<T: Keyed>(s: Seq<T>) -> Seq<T>
    decreases s.len(),
{
    if s.len() == 0 {
        s
    } else {
        let t = in_order(s.drop_last());
        t.insert(place_for(t, s.last()), s.last())
    }
}

/// True when no item stands behind one with a larger key.
pub open spec fn is_ordered<T: Keyed>(s: Seq<T>) -> bool {
    forall|i: int, j: int| 0 <= i <= j < s.len() ==> #[trigger] s[i].key() <= #[trigger] s[j].key()
}

proof fn lemma_place_for<T: Keyed>(s: Seq<T>, x: T)
    requires
        is_ordered(s),
    ensures
        0 <= place_for(s, x) <= s.len(),
        forall|i: int| 0 <= i < place_for(s, x) ==> (#[trigger] s[i]).key() <= x.key(),
        forall|i: int| place_for(s, x) <= i < s.len() ==> (#[trigger] s[i]).key() > x.key(),
    decreases s.len(),
{
    if s.len() > 0 {
        let t = s.drop_last();
        assert forall|i: int, j: int| 0 <= i <= j < t.len() implies #[trigger] t[i].key()
            <= #[trigger] t[j].key() by {
            assert(t[i] == s[i]);
            assert(t[j] == s[j]);
        }
        lemma_place_for(t, x);
        let p = place_for(s, x);
        if s.last().key() > x.key() {
            assert forall|i: int| 0 <= i < p implies (#[trigger] s[i]).key() <= x.key() by {
                assert(t[i] == s[i]);
            }
            assert forall|i: int| p <= i < s.len() implies (#[trigger] s[i]).key() > x.key() by {
                if i < t.len() {
                    assert(t[i] == s[i]);
                }
            }
        } else {
            assert forall|i: int| 0 <= i < p implies (#[trigger] s[i]).key() <= x.key() by {
                assert(s[i].key() <= s[s.len() - 1].key());
            }
        }
    }
}

/// Law: sorting gives the same items, in the order of their keys.
pub proof fn law_in_order<T: Keyed>(s: Seq<T>)
    ensures
        is_ordered(in_order(s)),
        in_order(s).to_multiset() == s.to_multiset(),
        in_order(s).len() == s.len(),
    decreases s.len(),
{
    if s.len() > 0 {
        let t = in_order(s.drop_last());
        let x = s.last();
        law_in_order(s.drop_last());
        lemma_place_for(t, x);
        let p = place_for(t, x);
        let r = t.insert(p, x);
        assert forall|i: int, j: int| 0 <= i <= j < r.len() implies #[trigger] r[i].key()
            <= #[trigger] r[j].key() by {
            let a = if i < p { i } else { i - 1 };
            let b = if j < p { j } else { j - 1 };
            if i != p {
                assert(r[i] == t[a]);
            }
            if j != p {
                assert(r[j] == t[b]);
            }
        }
        vstd::seq_lib::to_multiset_insert(t, p, x);
        vstd::seq_lib::to_multiset_build(s.drop_last(), x);
        assert(s.drop_last().push(x) =~= s);
    }
}

/// The items of `s` with the key `k`.
pub open spec fn with_key<T: Keyed>(s: Seq<T>, k: int) -> Seq<T>
    decreases s.len(),
{
    if s.len() == 0 {
        s
    } else if s.last().key() == k {
        with_key(s.drop_last(), k).push(s.last())
    } else {
        with_key(s.drop_last(), k)
    }
}

proof fn lemma_with_key_join<T: Keyed>(a: Seq<T>, b: Seq<T>, k: int)
    ensures
        with_key(a + b, k) == with_key(a, k) + with_key(b, k),
    decreases b.len(),
{
    if b.len() == 0 {
        assert(a + b =~= a);
        assert(with_key(a, k) + with_key(b, k) =~= with_key(a, k));
    } else {
        assert((a + b).drop_last() =~= a + b.drop_last());
        assert((a + b).last() == b.last());
        lemma_with_key_join(a, b.drop_last(), k);
        if b.last().key() == k {
            assert((with_key(a, k) + with_key(b.drop_last(), k)).push(b.last()) =~= with_key(a, k)
                + with_key(b, k));
        }
    }
}

proof fn lemma_no_key<T: Keyed>(s: Seq<T>, k: int)
    requires
        forall|i: int| 0 <= i < s.len() ==> (#[trigger] s[i]).key() != k,
    ensures
        with_key(s, k) == Seq::<T>::empty(),
    decreases s.len(),
{
    if s.len() > 0 {
        let t = s.drop_last();
        assert forall|i: int| 0 <= i < t.len() implies (#[trigger] t[i]).key() != k by {
            assert(t[i] == s[i]);
        }
        lemma_no_key(t, k);
        assert(s[s.len() - 1].key() != k);
    } else {
        assert(s =~= Seq::<T>::empty());
    }
}

/// Law: sorting keeps items with the same key in the order in which they came.
pub proof fn law_in_order_is_stable<T: Keyed>(s: Seq<T>, k: int)
    ensures
        with_key(in_order(s), k) == with_key(s, k),
    decreases s.len(),
{
    if s.len() > 0 {
        let t = in_order(s.drop_last());
        let x = s.last();
        law_in_order(s.drop_last());
        law_in_order_is_stable(s.drop_last(), k);
        lemma_place_for(t, x);
        let p = place_for(t, x);
        let head = t.take(p);
        let tail = t.skip(p);
        assert(t =~= head + tail);
        assert(in_order(s) =~= head.push(x) + tail);
        lemma_with_key_join(head, tail, k);
        lemma_with_key_join(head.push(x), tail, k);
        assert(head.push(x).drop_last() =~= head);
        if x.key() == k {
            assert forall|i: int| 0 <= i < tail.len() implies (#[trigger] tail[i]).key() != k by {
                assert(tail[i] == t[p + i]);
            }
            lemma_no_key(tail, k);
            assert(with_key(head, k) + Seq::<T>::empty() =~= with_key(head, k));
            assert(with_key(head.push(x), k) + Seq::<T>::empty() =~= with_key(head, k).push(x));
        }
    }
}

/// Sorts by key, equal items in the order in which they came.
pub fn sort_by_key<T: Keyed>(v: Vec<T>) -> (sorted: Vec<T>)
    ensures
        sorted@ == in_order(v@),
{
    let ghost all = v@;
    let mut rest = v;
    let mut sorted: Vec<T> = Vec::new();
    let ghost mut done: int = 0;
    assert(all.take(0) =~= Seq::<T>::empty());
    assert(all.skip(0) =~= all);
    while rest.len() > 0
        invariant
            0 <= done <= all.len(),
            rest@ == all.skip(done),
            sorted@ == in_order(all.take(done)),
        decreases rest.len(),
    {
        let x = rest.remove(0);
        let ghost t = sorted@;
        let mut at: usize = sorted.len();
        assert(t.take(at as int) =~= t);
        while at > 0 && !sorted[at - 1].not_after(&x)
            invariant
                at <= sorted.len(),
                sorted@ == t,
                place_for(t, x) == place_for(t.take(at as int), x),
            decreases at,
        {
            assert(t.take(at as int).drop_last() =~= t.take(at - 1));
            assert(t.take(at as int).last() == t[at - 1]);
            at = at - 1;
        }
        assert(at > 0 ==> t.take(at as int).last() == t[at - 1]);
        sorted.insert(at, x);
        proof {
            let next = all.take(done + 1);
            assert(next.drop_last() =~= all.take(done));
            assert(next.last() == x);
            assert(rest@ =~= all.skip(done + 1));
            done = done + 1;
        }
    }
    assert(all.take(done) =~= all);
    sorted
}

} // verus!
