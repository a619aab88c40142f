//! Sorting and reordering: a stable sort's result depends only on which elements it is
//! given, when elements that sort alike are equal; sorting what is sorted changes nothing.
use vstd::prelude::*;

use crate::sorting::{SortKey, chars_le, insert_pos, is_sorted, lemma_chars_antisym, sort_seq, tuple_le};

verus! {

broadcast use vstd::seq_lib::group_to_multiset_ensures;

/// Two sorted sequences with the same elements are the same sequence, when elements that
/// sort alike are equal.
pub proof fn lemma_sorted_eq<T: SortKey>(a: Seq<T::V>, b: Seq<T::V>)
    requires
        is_sorted::<T>(a),
        is_sorted::<T>(b),
        a.to_multiset() == b.to_multiset(),
        forall|x: T::V, y: T::V|
            a.contains(x) && a.contains(y) && T::view_le(x, y) && T::view_le(y, x) ==> x == y,
    ensures
        a == b,
    decreases a.len(),
{
    if a.len() == 0 {
        assert(b.to_multiset().len() == 0);
        assert(b =~= a);
    } else {
        assert(a.to_multiset().len() == a.len());
        assert(b.to_multiset().len() == b.len());
        assert(b.len() == a.len());
        assert(a.contains(a[0]));
        assert(a.to_multiset().count(a[0]) > 0);
        assert(b.contains(a[0]));
        let j = choose|j: int| 0 <= j < b.len() && b[j] == a[0];
        assert(b.contains(b[0]));
        assert(b.to_multiset().count(b[0]) > 0);
        assert(a.contains(b[0]));
        let k = choose|k: int| 0 <= k < a.len() && a[k] == b[0];
        if j > 0 {
            assert(T::view_le(b[0], b[j]));
        } 
        if k > 0 {
            assert(T::view_le(a[0], a[k]));
        }
        if j > 0 && k > 0 {
            assert(a[0] == b[0]);
        }
        assert(a[0] == b[0]);
        let a1 = a.remove(0);
        let b1 = b.remove(0);
        assert(a1.to_multiset() == a.to_multiset().remove(a[0]));
        assert(b1.to_multiset() == b.to_multiset().remove(b[0]));
        assert forall|i: int, q: int| 0 <= i < q < a1.len() implies T::view_le(#[trigger] a1[i], #[trigger] a1[q]) by {
            assert(a1[i] == a[i + 1] && a1[q] == a[q + 1]);
        }
        assert forall|i: int, q: int| 0 <= i < q < b1.len() implies T::view_le(#[trigger] b1[i], #[trigger] b1[q]) by {
            assert(b1[i] == b[i + 1] && b1[q] == b[q + 1]);
        }
        assert forall|x: T::V, y: T::V|
            a1.contains(x) && a1.contains(y) && T::view_le(x, y) && T::view_le(y, x) implies x == y by {
            let ix = choose|ix: int| 0 <= ix < a1.len() && a1[ix] == x;
            let iy = choose|iy: int| 0 <= iy < a1.len() && a1[iy] == y;
            assert(a[ix + 1] == x && a[iy + 1] == y);
            assert(a.contains(x) && a.contains(y));
        }
        lemma_sorted_eq::<T>(a1, b1);
        assert(a =~= seq![a[0]] + a1);
        assert(b =~= seq![b[0]] + b1);
    }
}

/// Mapping keeps two sequences with the same elements alike.
pub proof fn lemma_map_multiset<A, B>(s1: Seq<A>, s2: Seq<A>, f: spec_fn(A) -> B)
    requires
        s1.to_multiset() == s2.to_multiset(),
    ensures
        s1.map_values(f).to_multiset() == s2.map_values(f).to_multiset(),
    decreases s1.len(),
{
    if s1.len() == 0 {
        assert(s2.to_multiset().len() == 0);
        assert(s1.map_values(f) =~= s2.map_values(f));
    } else {
        let x = s1.last();
        let d1 = s1.drop_last();
        assert(s1 =~= d1.push(x));
        assert(s1.to_multiset() == d1.to_multiset().insert(x));
        assert(s1.contains(x));
        assert(s2.to_multiset().count(x) > 0);
        assert(s2.contains(x));
        let j = choose|j: int| 0 <= j < s2.len() && s2[j] == x;
        let d2 = s2.remove(j);
        assert(d2.to_multiset() == s2.to_multiset().remove(x));
        assert(d1.to_multiset() =~= d2.to_multiset());
        lemma_map_multiset(d1, d2, f);
        assert(s1.map_values(f) =~= d1.map_values(f).push(f(x)));
        assert(d2.map_values(f) =~= s2.map_values(f).remove(j));
        assert(s2.map_values(f)[j] == f(x));
        assert(s2.map_values(f).remove(j).to_multiset() == s2.map_values(f).to_multiset().remove(f(x)));
        assert(s2.map_values(f).contains(f(x)));
        assert(s2.map_values(f).to_multiset().count(f(x)) > 0);
        assert(s2.map_values(f).to_multiset() =~= d2.map_values(f).to_multiset().insert(f(x)));
    }
}

pub proof fn lemma_tuple_antisym(a: Seq<Seq<char>>, b: Seq<Seq<char>>)
    requires
        a.len() == b.len(),
        tuple_le(a, b),
        tuple_le(b, a),
    ensures
        a == b,
    decreases a.len(),
{
    if a.len() > 0 {
        if a[0] != b[0] {
            lemma_chars_antisym(a[0], b[0]);
        } else {
            lemma_tuple_antisym(a.drop_first(), b.drop_first());
            assert(a =~= seq![a[0]] + a.drop_first());
            assert(b =~= seq![b[0]] + b.drop_first());
        }
    } else {
        assert(a =~= b);
    }
}

proof fn lemma_insert_pos_after_all<T: SortKey>(s: Seq<T::V>, x: T::V)
    requires
        forall|j: int| 0 <= j < s.len() ==> T::view_le(#[trigger] s[j], x),
    ensures
        insert_pos::<T>(s, x) == s.len(),
    decreases s.len(),
{
    if s.len() > 0 {
        assert(T::view_le(s[0], x));
        assert forall|j: int| 0 <= j < s.drop_first().len() implies T::view_le(#[trigger] s.drop_first()[j], x) by {
            assert(s.drop_first()[j] == s[j + 1]);
        }
        lemma_insert_pos_after_all::<T>(s.drop_first(), x);
    }
}

/// Sorting a sequence that is already sorted gives it back unchanged.
pub proof fn lemma_sort_sorted<T: SortKey>(s: Seq<T::V>)
    requires
        is_sorted::<T>(s),
    ensures
        sort_seq::<T>(s) == s,
    decreases s.len(),
{
    if s.len() > 0 {
        let d = s.drop_last();
        assert(is_sorted::<T>(d)) by {
            assert forall|i: int, j: int| 0 <= i < j < d.len() implies T::view_le(#[trigger] d[i], #[trigger] d[j]) by {
                assert(d[i] == s[i] && d[j] == s[j]);
            }
        }
        lemma_sort_sorted::<T>(d);
        assert forall|j: int| 0 <= j < d.len() implies T::view_le(#[trigger] d[j], s.last()) by {
            assert(d[j] == s[j]);
            assert(T::view_le(s[j], s[s.len() - 1]));
        }
        lemma_insert_pos_after_all::<T>(d, s.last());
        assert(d.insert(d.len() as int, s.last()) =~= s);
    }
}

} // verus!
