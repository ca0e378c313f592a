//! Ordering of values by character keys: a stable insertion sort and the
//! sequence reversal it is fed with.
use vstd::prelude::*;
use vstd::multiset::Multiset;

use crate::text::{
    chars_le, chars_le_exec, lemma_chars_le_refl, lemma_chars_le_total, lemma_chars_le_trans,
};

verus! {

broadcast use vstd::seq_lib::group_to_multiset_ensures, vstd::multiset::group_multiset_axioms;

/// The views of a sequence of values.
pub open spec fn views<T: View>(s: Seq<T>) -> Seq<T::V> {
    s.map_values(|t: T| t@)
}

/// `s` is in non-decreasing order of `key` (code point order on the keys).
pub open spec fn sorted_by_key<V>(s: Seq<V>, key: spec_fn(V) -> Seq<char>) -> bool {
    forall|i: int, j: int|
        0 <= i < j < s.len() ==> chars_le(#[trigger] key(s[i]), #[trigger] key(s[j]))
}

/// The elements of `s` whose key is `k`, in order.
pub open spec fn with_key<V>(s: Seq<V>, key: spec_fn(V) -> Seq<char>, k: Seq<char>) -> Seq<V> {
    s.filter(key_is(key, k))
}

/// The predicate "has key `k`".
pub open spec fn key_is<V>(key: spec_fn(V) -> Seq<char>, k: Seq<char>) -> spec_fn(V) -> bool {
    |v: V| key(v) == k
}

proof fn lemma_with_key_singleton<V>(x: V, key: spec_fn(V) -> Seq<char>, k: Seq<char>)
    ensures
        with_key(seq![x], key, k) == (if key(x) == k {
            seq![x]
        } else {
            Seq::<V>::empty()
        }),
{
    reveal(Seq::filter);
    let e = Seq::<V>::empty();
    assert(seq![x].drop_last() =~= e);
    assert(with_key(e, key, k) =~= e);
    assert(seq![x].last() == x);
    if key(x) == k {
        assert(e.push(x) =~= seq![x]);
    }
}

/// Inserting `x` before every element with a key at least its own puts it
/// first among the elements with its key.
proof fn lemma_with_key_insert<V>(s: Seq<V>, p: int, x: V, key: spec_fn(V) -> Seq<char>, k: Seq<char>)
    requires
        0 <= p <= s.len(),
        forall|i: int| 0 <= i < p ==> key(#[trigger] s[i]) != key(x),
    ensures
        with_key(s.insert(p, x), key, k) == (if key(x) == k {
            seq![x] + with_key(s, key, k)
        } else {
            with_key(s, key, k)
        }),
{
    let pred = key_is(key, k);
    let a = s.subrange(0, p);
    let b = s.subrange(p, s.len() as int);
    assert(s.insert(p, x) =~= a + seq![x] + b);
    assert(s =~= a + b);
    Seq::filter_distributes_over_add(a + seq![x], b, pred);
    Seq::filter_distributes_over_add(a, seq![x], pred);
    Seq::filter_distributes_over_add(a, b, pred);
    lemma_with_key_singleton(x, key, k);
    if key(x) == k {
        assert forall|i: int| 0 <= i < a.len() implies !pred(#[trigger] a[i]) by {
            assert(a[i] == s[i]);
        }
        a.lemma_all_neg_filter_empty(pred);
        assert(a.filter(pred) =~= Seq::<V>::empty());
        assert(a.filter(pred) + seq![x] + b.filter(pred) =~= seq![x] + (a.filter(pred) + b.filter(
            pred,
        )));
    } else {
        assert(a.filter(pred) + Seq::<V>::empty() =~= a.filter(pred));
    }
}

/// The elements of `v` in reverse order.
pub fn reversed<T>(v: Vec<T>) -> (r: Vec<T>)
    ensures
        r@ == v@.reverse(),
{
    let ghost orig = v@;
    let mut v = v;
    let mut r: Vec<T> = Vec::new();
    while v.len() > 0
        invariant
            v@ == orig.subrange(0, v@.len() as int),
            r@.len() + v@.len() == orig.len(),
            forall|i: int| 0 <= i < r@.len() ==> r@[i] == orig[orig.len() - 1 - i],
        decreases v@.len(),
    {
        let x = v.pop().unwrap();
        r.push(x);
    }
    assert(r@ =~= orig.reverse());
    r
}

proof fn lemma_views_drop_last<T: View>(s: Seq<T>)
    requires
        s.len() > 0,
    ensures
        views(s) == views(s.drop_last()).push(s.last()@),
{
    assert(views(s) =~= views(s.drop_last()).push(s.last()@));
}

proof fn lemma_views_insert<T: View>(s: Seq<T>, p: int, x: T)
    requires
        0 <= p <= s.len(),
    ensures
        views(s.insert(p, x)) == views(s).insert(p, x@),
{
    s.insert_ensures(p, x);
    views(s).insert_ensures(p, x@);
    assert(views(s.insert(p, x)) =~= views(s).insert(p, x@));
}

/// Sorts `items` by `keys` (where `keys[i]` is the key of `items[i]`),
/// keeping items with equal keys in their input order.
pub(crate) fn sort_by_char_keys<T: View>(
    items: Vec<T>,
    keys: Vec<Vec<char>>,
    Ghost(key): Ghost<spec_fn(T::V) -> Seq<char>>,
) -> (r: Vec<T>)
    requires
        items@.len() == keys@.len(),
        forall|i: int| 0 <= i < items@.len() ==> keys@[i]@ == key(#[trigger] items@[i]@),
    ensures
        views(r@).to_multiset() == views(items@).to_multiset(),
        sorted_by_key(views(r@), key),
        forall|k: Seq<char>| #[trigger] with_key(views(r@), key, k) == with_key(views(items@), key, k),
{
    let ghost orig = items@;
    let mut items = items;
    let mut keys = keys;
    let mut out: Vec<T> = Vec::new();
    let mut out_keys: Vec<Vec<char>> = Vec::new();
    let ghost n = orig.len();
    assert(views(out@).to_multiset() =~= Multiset::empty());
    assert forall|k: Seq<char>| #[trigger] with_key(views(out@), key, k) == with_key(
        views(orig).subrange(n as int, n as int),
        key,
        k,
    ) by {
        reveal(Seq::filter);
        assert(views(out@) =~= Seq::<T::V>::empty());
        assert(views(orig).subrange(n as int, n as int) =~= Seq::<T::V>::empty());
    }
    while items.len() > 0
        invariant
            items@.len() == keys@.len(),
            forall|i: int| 0 <= i < items@.len() ==> keys@[i]@ == key(#[trigger] items@[i]@),
            out@.len() == out_keys@.len(),
            forall|i: int| 0 <= i < out@.len() ==> out_keys@[i]@ == key(#[trigger] out@[i]@),
            sorted_by_key(views(out@), key),
            views(items@).to_multiset().add(views(out@).to_multiset()) == views(
                orig,
            ).to_multiset(),
            n == orig.len(),
            items@.len() <= n,
            items@ == orig.subrange(0, items@.len() as int),
            forall|k: Seq<char>| #[trigger] with_key(views(out@), key, k) == with_key(
                views(orig).subrange(items@.len() as int, n as int),
                key,
                k,
            ),
        decreases items@.len(),
    {
        let ghost before_items = items@;
        let ghost before_out = out@;
        proof {
            lemma_views_drop_last(items@);
        }
        let t = items.pop().unwrap();
        let k = keys.pop().unwrap();
        let mut p: usize = 0;
        while p < out_keys.len() && !chars_le_exec(k.as_slice(), out_keys[p].as_slice())
            invariant
                p <= out_keys@.len(),
                out@.len() == out_keys@.len(),
                forall|i: int| 0 <= i < p ==> !chars_le(k@, #[trigger] out_keys@[i]@),
            decreases out_keys@.len() - p,
        {
            p = p + 1;
        }
        let ghost kt = t@;
        proof {
            lemma_views_insert(out@, p as int, t);
        }
        out.insert(p, t);
        out_keys.insert(p, k);
        proof {
            let vo = views(before_out);
            let vn = views(out@);
            assert(vn == vo.insert(p as int, kt));
            vo.insert_ensures(p as int, kt);
            assert(key(kt) == k@);
            assert forall|i: int, j: int| 0 <= i < j < vn.len() implies chars_le(
                #[trigger] key(vn[i]),
                #[trigger] key(vn[j]),
            ) by {
                if j < p {
                    assert(vn[i] == vo[i] && vn[j] == vo[j]);
                } else if j == p {
                    assert(vn[i] == vo[i]);
                    assert(!chars_le(k@, out_keys@[i]@));
                    lemma_chars_le_total(k@, key(vo[i]));
                } else if i < p {
                    assert(vn[i] == vo[i] && vn[j] == vo[j - 1]);
                    assert(!chars_le(k@, out_keys@[i]@));
                    lemma_chars_le_total(k@, key(vo[i]));
                    assert(chars_le(key(vo[p as int]), key(vo[j - 1])) || p == j - 1);
                    assert(chars_le(k@, key(vo[p as int])));
                    if p < j - 1 {
                        lemma_chars_le_trans(k@, key(vo[p as int]), key(vo[j - 1]));
                    }
                    lemma_chars_le_trans(key(vo[i]), k@, key(vo[j - 1]));
                } else if i == p {
                    assert(vn[j] == vo[j - 1]);
                    assert(chars_le(k@, key(vo[p as int])));
                    if p < j - 1 {
                        lemma_chars_le_trans(k@, key(vo[p as int]), key(vo[j - 1]));
                    }
                } else {
                    assert(vn[i] == vo[i - 1] && vn[j] == vo[j - 1]);
                }
            }
            assert(views(items@).to_multiset().add(views(out@).to_multiset()) =~= views(
                orig,
            ).to_multiset());
            let m = items@.len() as int;
            assert(before_items.len() == m + 1);
            assert(before_items == orig.subrange(0, m + 1));
            assert(orig.subrange(0, m + 1)[m] == orig[m]);
            assert(before_items[m] == orig[m]);
            assert(kt == before_items[m]@);
            assert(kt == views(orig)[m]);
            assert forall|i: int| 0 <= i < p implies key(#[trigger] vo[i]) != key(kt) by {
                assert(!chars_le(k@, out_keys@[i]@));
                lemma_chars_le_refl(k@);
            }
            assert(views(orig).subrange(m, n as int) =~= seq![kt] + views(orig).subrange(
                m + 1,
                n as int,
            ));
            assert forall|kk: Seq<char>| #[trigger] with_key(vn, key, kk) == with_key(
                views(orig).subrange(m, n as int),
                key,
                kk,
            ) by {
                lemma_with_key_insert(vo, p as int, kt, key, kk);
                lemma_with_key_singleton(kt, key, kk);
                Seq::filter_distributes_over_add(
                    seq![kt],
                    views(orig).subrange(m + 1, n as int),
                    key_is(key, kk),
                );
                if key(kt) != kk {
                    assert(Seq::<T::V>::empty() + with_key(views(orig).subrange(m + 1, n as int), key, kk)
                        =~= with_key(views(orig).subrange(m + 1, n as int), key, kk));
                }
            }
        }
    }
    assert(views(orig).subrange(0, n as int) =~= views(orig));
    out
}

} // verus!
