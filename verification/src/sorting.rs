//! Stable sorting by a key, and the lexicographic order of strings that `String`'s `Ord`
//! gives (byte order of UTF-8, which is the order of code points).
use vstd::prelude::*;

use crate::text::chars_of;

verus! {

broadcast use vstd::seq_lib::group_to_multiset_ensures;

/// Values that can be sorted: a total preorder on their views, and a way to decide it.
pub trait SortKey: View + Sized {
    spec fn view_le(a: Self::V, b: Self::V) -> bool;

    proof fn lemma_view_total(a: Self::V, b: Self::V)
        ensures
            Self::view_le(a, b) || Self::view_le(b, a),
    ;

    proof fn lemma_view_trans(a: Self::V, b: Self::V, c: Self::V)
        requires
            Self::view_le(a, b),
            Self::view_le(b, c),
        ensures
            Self::view_le(a, c),
    ;

    fn le(&self, other: &Self) -> (r: bool)
        ensures
            r == Self::view_le(self@, other@),
    ;
}

/// The views of the elements of `s`.
pub open spec fn seq_views<T: View>(s: Seq<T>) -> Seq<T::V> {
    s.map_values(|x: T| x@)
}

/// Where `x` goes in `s`: before the first element that is above it.
pub open spec fn insert_pos<T: SortKey>(s: Seq<T::V>, x: T::V) -> nat
    decreases s.len(),
{
    if s.len() == 0 {
        0
    } else if !T::view_le(s[0], x) {
        0
    } else {
        1 + insert_pos::<T>(s.drop_first(), x)
    }
}

pub open spec fn insert_sorted<T: SortKey>(s: Seq<T::V>, x: T::V) -> Seq<T::V> {
    s.insert(insert_pos::<T>(s, x) as int, x)
}

/// The stable sort of `s`: each element in turn goes after every earlier one that is not
/// above it.
pub open spec fn sort_seq<T: SortKey>(s: Seq<T::V>) -> Seq<T::V>
    decreases s.len(),
{
    if s.len() == 0 {
        s
    } else {
        insert_sorted::<T>(sort_seq::<T>(s.drop_last()), s.last())
    }
}

pub open spec fn is_sorted<T: SortKey>(s: Seq<T::V>) -> bool {
    forall|i: int, j: int| 0 <= i < j < s.len() ==> T::view_le(#[trigger] s[i], #[trigger] s[j])
}

proof fn lemma_insert_pos<T: SortKey>(s: Seq<T::V>, x: T::V)
    ensures
        insert_pos::<T>(s, x) <= s.len(),
        forall|j: int| 0 <= j < insert_pos::<T>(s, x) ==> T::view_le(#[trigger] s[j], x),
        insert_pos::<T>(s, x) < s.len() ==> !T::view_le(s[insert_pos::<T>(s, x) as int], x),
    decreases s.len(),
{
    if s.len() > 0 && T::view_le(s[0], x) {
        lemma_insert_pos::<T>(s.drop_first(), x);
        assert forall|j: int| 0 <= j < insert_pos::<T>(s, x) implies T::view_le(#[trigger] s[j], x) by {
            if j > 0 {
                assert(s[j] == s.drop_first()[j - 1]);
            }
        }
    }
}

proof fn lemma_insert_sorted<T: SortKey>(s: Seq<T::V>, x: T::V)
    requires
        is_sorted::<T>(s),
    ensures
        is_sorted::<T>(insert_sorted::<T>(s, x)),
        insert_sorted::<T>(s, x).to_multiset() == s.to_multiset().insert(x),
        insert_sorted::<T>(s, x).len() == s.len() + 1,
{
    lemma_insert_pos::<T>(s, x);
    let p = insert_pos::<T>(s, x) as int;
    let r = insert_sorted::<T>(s, x);
    s.insert_ensures(p, x);
    assert forall|i: int, j: int| 0 <= i < j < r.len() implies T::view_le(#[trigger] r[i], #[trigger] r[j]) by {
        if i < p && j < p {
            assert(r[i] == s[i] && r[j] == s[j]);
        } else if i < p && j == p {
            assert(r[i] == s[i]);
        } else if i < p && j > p {
            assert(r[i] == s[i] && r[j] == s[j - 1]);
            assert(T::view_le(s[i], s[j - 1]));
        } else if i == p {
            assert(r[j] == s[j - 1]);
            T::lemma_view_total(s[p], x);
            if j - 1 > p {
                assert(T::view_le(s[p], s[j - 1]));
                T::lemma_view_trans(x, s[p], s[j - 1]);
            }
        } else {
            assert(r[i] == s[i - 1] && r[j] == s[j - 1]);
        }
    }
}

/// Sorting keeps the elements and puts them in order.
pub proof fn lemma_sort_seq<T: SortKey>(s: Seq<T::V>)
    ensures
        is_sorted::<T>(sort_seq::<T>(s)),
        sort_seq::<T>(s).to_multiset() == s.to_multiset(),
        sort_seq::<T>(s).len() == s.len(),
    decreases s.len(),
{
    if s.len() > 0 {
        lemma_sort_seq::<T>(s.drop_last());
        lemma_insert_sorted::<T>(sort_seq::<T>(s.drop_last()), s.last());
        assert(s.drop_last().push(s.last()) =~= s);
    }
}

/// Sorts `v`, keeping the order of equal elements (as `slice::sort_by` does).
pub fn sort_by_key<T: SortKey>(v: Vec<T>) -> (out: Vec<T>)
    ensures
        seq_views(out@) == sort_seq::<T>(seq_views(v@)),
        out@.to_multiset() == v@.to_multiset(),
{
    let ghost orig = v@;
    let ghost ov = seq_views(v@);
    let mut rest = v;
    let mut out: Vec<T> = Vec::new();
    let mut i: usize = 0;
    let n = rest.len();
    proof {
        assert(ov.take(0) =~= Seq::<T::V>::empty());
        assert(seq_views(out@) =~= Seq::<T::V>::empty());
        assert(orig.skip(0) =~= orig);
        assert(orig.take(0) =~= Seq::<T>::empty());
    }
    while rest.len() > 0
        invariant
            n == orig.len(),
            ov == seq_views(orig),
            i <= n,
            rest@ == orig.skip(i as int),
            seq_views(out@) == sort_seq::<T>(ov.take(i as int)),
            out@.to_multiset() == orig.take(i as int).to_multiset(),
        decreases rest.len(),
    {
        let x = rest.remove(0);
        proof {
            assert(x == orig[i as int]);
            assert(ov.take(i + 1).drop_last() =~= ov.take(i as int));
            assert(ov.take(i + 1).last() == x@);
            assert(orig.skip(i as int).remove(0) =~= orig.skip(i + 1));
            assert(orig.take(i + 1) =~= orig.take(i as int).push(x));
        }
        let ghost before = seq_views(out@);
        let ghost before_exec = out@;
        let mut p: usize = 0;
        proof {
            assert(before.skip(0) =~= before);
        }
        while p < out.len() && out[p].le(&x)
            invariant
                before == seq_views(out@),
                before_exec == out@,
                p <= out.len(),
                insert_pos::<T>(before, x@) == p + insert_pos::<T>(before.skip(p as int), x@),
            decreases out.len() - p,
        {
            proof {
                assert(before.skip(p as int).drop_first() =~= before.skip(p + 1));
                assert(before.skip(p as int)[0] == out@[p as int]@);
            }
            p = p + 1;
        }
        proof {
            if p < out.len() {
                assert(before.skip(p as int)[0] == out@[p as int]@);
                assert(!T::view_le(before.skip(p as int)[0], x@));
            }
        }
        out.insert(p, x);
        proof {
            assert(seq_views(out@) =~= before.insert(p as int, x@));
        }
        i = i + 1;
    }
    proof {
        assert(ov.take(i as int) =~= ov);
        assert(orig.take(i as int) =~= orig);
    }
    out
}

/// `a` comes no later than `b` in the order of code points, compared position by position
/// with a proper prefix first.
pub open spec fn chars_le(a: Seq<char>, b: Seq<char>) -> bool
    decreases a.len(),
{
    if a.len() == 0 {
        true
    } else if b.len() == 0 {
        false
    } else if a[0] != b[0] {
        (a[0] as u32) < (b[0] as u32)
    } else {
        chars_le(a.drop_first(), b.drop_first())
    }
}

proof fn lemma_char_code_injective(a: char, b: char)
    ensures
        (a as u32 == b as u32) ==> a == b,
{
}

pub proof fn lemma_chars_total(a: Seq<char>, b: Seq<char>)
    ensures
        chars_le(a, b) || chars_le(b, a),
    decreases a.len(),
{
    if a.len() > 0 && b.len() > 0 {
        if a[0] == b[0] {
            lemma_chars_total(a.drop_first(), b.drop_first());
        } else {
            lemma_char_code_injective(a[0], b[0]);
        }
    }
}

pub proof fn lemma_chars_trans(a: Seq<char>, b: Seq<char>, c: Seq<char>)
    requires
        chars_le(a, b),
        chars_le(b, c),
    ensures
        chars_le(a, c),
    decreases a.len(),
{
    if a.len() > 0 && b.len() > 0 && c.len() > 0 && a[0] == b[0] && b[0] == c[0] {
        lemma_chars_trans(a.drop_first(), b.drop_first(), c.drop_first());
    }
}

pub proof fn lemma_chars_antisym(a: Seq<char>, b: Seq<char>)
    requires
        chars_le(a, b),
        chars_le(b, a),
    ensures
        a == b,
    decreases a.len(),
{
    if a.len() > 0 && b.len() > 0 {
        assert(a[0] == b[0]);
        lemma_chars_antisym(a.drop_first(), b.drop_first());
        assert(a =~= b) by {
            assert forall|k: int| 0 <= k < a.len() implies a[k] == b[k] by {
                if k > 0 {
                    assert(a[k] == a.drop_first()[k - 1]);
                    assert(b[k] == b.drop_first()[k - 1]);
                }
            }
        }
    } else {
        assert(a.len() == 0 && b.len() == 0);
        assert(a =~= b);
    }
}

/// Decides `chars_le` on the characters of two vectors.
pub fn chars_le_exec(a: &Vec<char>, b: &Vec<char>) -> (r: bool)
    ensures
        r == chars_le(a@, b@),
{
    let mut i: usize = 0;
    proof {
        assert(a@.skip(0) =~= a@);
        assert(b@.skip(0) =~= b@);
    }
    while i < a.len() && i < b.len() && a[i] == b[i]
        invariant
            i <= a.len(),
            i <= b.len(),
            chars_le(a@, b@) == chars_le(a@.skip(i as int), b@.skip(i as int)),
        decreases a.len() - i,
    {
        proof {
            assert(a@.skip(i as int).drop_first() =~= a@.skip(i + 1));
            assert(b@.skip(i as int).drop_first() =~= b@.skip(i + 1));
        }
        i = i + 1;
    }
    if i == a.len() {
        proof {
            assert(a@.skip(i as int).len() == 0);
        }
        true
    } else if i == b.len() {
        proof {
            assert(b@.skip(i as int).len() == 0);
        }
        false
    } else {
        proof {
            assert(a@.skip(i as int)[0] == a@[i as int]);
            assert(b@.skip(i as int)[0] == b@[i as int]);
        }
        (a[i] as u32) < (b[i] as u32)
    }
}

/// Decides `chars_le` on two strings.
pub fn str_le(a: &str, b: &str) -> (r: bool)
    ensures
        r == chars_le(a@, b@),
{
    let ac = chars_of(a);
    let bc = chars_of(b);
    chars_le_exec(&ac, &bc)
}

/// Strings sort by content, as `Vec<String>::sort` does.
impl SortKey for String {
    open spec fn view_le(a: Seq<char>, b: Seq<char>) -> bool {
        chars_le(a, b)
    }

    proof fn lemma_view_total(a: Seq<char>, b: Seq<char>) {
        lemma_chars_total(a, b);
    }

    proof fn lemma_view_trans(a: Seq<char>, b: Seq<char>, c: Seq<char>) {
        lemma_chars_trans(a, b, c);
    }

    fn le(&self, other: &Self) -> (r: bool) {
        str_le(self.as_str(), other.as_str())
    }
}

/// The order of tuples of strings: by the first component, then the next, and so on.
pub open spec fn tuple_le(a: Seq<Seq<char>>, b: Seq<Seq<char>>) -> bool
    decreases a.len(),
{
    if a.len() == 0 || b.len() == 0 {
        true
    } else if a[0] != b[0] {
        chars_le(a[0], b[0])
    } else {
        tuple_le(a.drop_first(), b.drop_first())
    }
}

pub proof fn lemma_tuple_total(a: Seq<Seq<char>>, b: Seq<Seq<char>>)
    ensures
        tuple_le(a, b) || tuple_le(b, a),
    decreases a.len(),
{
    if a.len() > 0 && b.len() > 0 {
        if a[0] != b[0] {
            lemma_chars_total(a[0], b[0]);
        } else {
            lemma_tuple_total(a.drop_first(), b.drop_first());
        }
    }
}

pub proof fn lemma_tuple_trans(a: Seq<Seq<char>>, b: Seq<Seq<char>>, c: Seq<Seq<char>>)
    requires
        a.len() == b.len(),
        b.len() == c.len(),
        tuple_le(a, b),
        tuple_le(b, c),
    ensures
        tuple_le(a, c),
    decreases a.len(),
{
    if a.len() > 0 {
        if a[0] != b[0] && b[0] != c[0] {
            lemma_chars_trans(a[0], b[0], c[0]);
            if a[0] == c[0] {
                lemma_chars_antisym(a[0], b[0]);
            }
        } else if a[0] == b[0] && b[0] == c[0] {
            lemma_tuple_trans(a.drop_first(), b.drop_first(), c.drop_first());
        }
    }
}

} // verus!
