//! The order in which an ordered map or set is walked.

use core::cmp::Ordering;

use vstd::laws_cmp::{obeys_cmp, obeys_cmp_ord, obeys_partial_cmp_spec_properties};
use vstd::prelude::*;
use vstd::std_specs::btree::{increasing_seq, key_obeys_cmp_spec};
use vstd::std_specs::cmp::{OrdSpec, PartialOrdSpec};

use crate::anchor::AnchoredTx;
use crate::hash::Hash256;
use crate::transaction::OutPoint;

verus! {

broadcast use vstd::std_specs::btree::group_btree_axioms;

/// Whether `order` lists the keys of `keys`, each once, from the least to the greatest.
pub open spec fn is_key_order<K>(order: Seq<K>, keys: Set<K>) -> bool {
    &&& increasing_seq(order)
    &&& order.no_duplicates()
    &&& order.to_set() == keys
}

/// The keys of `keys`, from the least to the greatest.
pub open spec fn key_order<K>(keys: Set<K>) -> Seq<K> {
    choose|order: Seq<K>| is_key_order(order, keys)
}

/// The keys of the library's maps and the elements of its sets are totally ordered.
pub proof fn lemma_keys_are_ordered()
    ensures
        obeys_cmp::<u32>(),
        obeys_cmp::<Hash256>(),
        obeys_cmp::<OutPoint>(),
        obeys_cmp::<AnchoredTx>(),
        key_obeys_cmp_spec::<u32>(),
        key_obeys_cmp_spec::<Hash256>(),
        key_obeys_cmp_spec::<OutPoint>(),
        key_obeys_cmp_spec::<AnchoredTx>(),
{
    broadcast use vstd::laws_cmp::group_laws_cmp;

}

/// Whether the order tells any two different keys apart.
pub open spec fn tells_apart<K: Ord>() -> bool {
    forall|x: K, y: K| #[trigger] x.cmp_spec(&y) == Ordering::Equal ==> x == y
}

/// The order of the library's keys and elements tells any two different ones apart.
pub proof fn lemma_keys_are_told_apart()
    ensures
        tells_apart::<u32>(),
        tells_apart::<Hash256>(),
        tells_apart::<OutPoint>(),
        tells_apart::<AnchoredTx>(),
{
}

/// Of two different keys, one is less than the other.
proof fn lemma_one_is_less<K: Ord>(x: K, y: K)
    requires
        obeys_cmp::<K>(),
        tells_apart::<K>(),
        x != y,
        x.cmp_spec(&y) != Ordering::Less,
    ensures
        y.cmp_spec(&x) == Ordering::Less,
{
    reveal(obeys_partial_cmp_spec_properties);
    reveal(obeys_cmp_ord);
    assert(x.partial_cmp_spec(&y) == Some(x.cmp_spec(&y)));
    assert(y.partial_cmp_spec(&x) == Some(y.cmp_spec(&x)));
}

/// What is less than a lesser key is less.
proof fn lemma_less_is_transitive<K: Ord>(x: K, y: K, z: K)
    requires
        obeys_cmp::<K>(),
        x.cmp_spec(&y) == Ordering::Less,
        y.cmp_spec(&z) == Ordering::Less,
    ensures
        x.cmp_spec(&z) == Ordering::Less,
{
    reveal(obeys_partial_cmp_spec_properties);
    reveal(obeys_cmp_ord);
    assert(x.partial_cmp_spec(&y) == Some(x.cmp_spec(&y)));
    assert(y.partial_cmp_spec(&z) == Some(y.cmp_spec(&z)));
    assert(x.partial_cmp_spec(&z) == Some(x.cmp_spec(&z)));
}

/// Finitely many keys, if there are any, have a greatest.
proof fn lemma_greatest_key<K: Ord>(keys: Set<K>) -> (greatest: K)
    requires
        obeys_cmp::<K>(),
        tells_apart::<K>(),
        keys.finite(),
        keys.len() > 0,
    ensures
        keys.contains(greatest),
        forall|k: K|
            keys.contains(k) && k != greatest ==> #[trigger] k.cmp_spec(&greatest)
                == Ordering::Less,
    decreases keys.len(),
{
    let x = keys.choose();
    let rest = keys.remove(x);
    if rest.len() == 0 {
        x
    } else {
        let y = lemma_greatest_key(rest);
        if y.cmp_spec(&x) == Ordering::Less {
            assert forall|k: K| keys.contains(k) && k != x implies #[trigger] k.cmp_spec(&x)
                == Ordering::Less by {
                if k != y {
                    assert(rest.contains(k));
                    lemma_less_is_transitive(k, y, x);
                }
            }
            x
        } else {
            lemma_one_is_less(y, x);
            assert forall|k: K| keys.contains(k) && k != y implies #[trigger] k.cmp_spec(&y)
                == Ordering::Less by {
                if k != x {
                    assert(rest.contains(k));
                }
            }
            y
        }
    }
}

/// Finitely many keys have an order.
pub proof fn lemma_key_order_exists<K: Ord>(keys: Set<K>)
    requires
        obeys_cmp::<K>(),
        tells_apart::<K>(),
        keys.finite(),
    ensures
        is_key_order(key_order(keys), keys),
    decreases keys.len(),
{
    if keys.len() == 0 {
        let order = Seq::<K>::empty();
        assert(order.to_set() =~= keys);
        assert(is_key_order(order, keys));
    } else {
        let greatest = lemma_greatest_key(keys);
        let rest = keys.remove(greatest);
        lemma_key_order_exists(rest);
        let shorter = key_order(rest);
        let order = shorter.push(greatest);
        assert forall|i: int| 0 <= i < shorter.len() implies rest.contains(
            #[trigger] shorter[i],
        ) by {
            assert(shorter.to_set().contains(shorter[i]));
        }
        assert(increasing_seq(order)) by {
            assert forall|i: int, j: int| 0 <= i < j < order.len() implies order[i].cmp_spec(
                &order[j],
            ) is Less by {
                assert(order[i] == shorter[i]);
                if j < shorter.len() {
                    lemma_before_is_less(shorter, i, j);
                }
            }
        }
        assert(order.to_set() =~= keys) by {
            assert forall|k: K| keys.contains(k) implies order.to_set().contains(k) by {
                if k == greatest {
                    assert(order.last() == k && order[order.len() - 1] == k);
                } else {
                    assert(shorter.to_set().contains(k));
                    let i = choose|i: int| 0 <= i < shorter.len() && shorter[i] == k;
                    assert(order[i] == k);
                }
            }
        }
        assert(is_key_order(order, keys));
    }
}

/// Of two different elements of an increasing sequence, the one that stands before is less.
proof fn lemma_before_is_less<K: Ord>(s: Seq<K>, i: int, j: int)
    requires
        obeys_cmp::<K>(),
        increasing_seq(s),
        0 <= i < j < s.len(),
    ensures
        s[i].cmp_spec(&s[j]) == Ordering::Less,
{
}

/// No two elements are each less than the other.
proof fn lemma_less_is_one_way<K: Ord>(x: K, y: K)
    requires
        obeys_cmp::<K>(),
        x.cmp_spec(&y) == Ordering::Less,
    ensures
        y.cmp_spec(&x) != Ordering::Less,
{
    reveal(obeys_partial_cmp_spec_properties);
    reveal(obeys_cmp_ord);
    assert(x.partial_cmp_spec(&y) == Some(x.cmp_spec(&y)));
    assert(y.partial_cmp_spec(&x) == Some(y.cmp_spec(&x)));
}

/// There is only one order of the same keys.
proof fn lemma_key_order_unique<K: Ord>(a: Seq<K>, b: Seq<K>, keys: Set<K>)
    requires
        obeys_cmp::<K>(),
        is_key_order(a, keys),
        is_key_order(b, keys),
    ensures
        a == b,
    decreases a.len(),
{
    a.unique_seq_to_set();
    b.unique_seq_to_set();
    assert(a.len() == b.len());
    if a.len() == 0 {
        assert(a =~= b);
    } else {
        let x = a.last();
        let y = b.last();
        assert(keys.contains(x) && keys.contains(y)) by {
            assert(a.to_set().contains(a[a.len() - 1]));
            assert(b.to_set().contains(b[b.len() - 1]));
        }
        assert(x == y) by {
            assert(b.to_set().contains(x) && a.to_set().contains(y));
            let j = choose|j: int| 0 <= j < b.len() && b[j] == x;
            let i = choose|i: int| 0 <= i < a.len() && a[i] == y;
            if x != y {
                lemma_before_is_less(b, j, b.len() - 1);
                lemma_before_is_less(a, i, a.len() - 1);
                lemma_less_is_one_way(x, y);
            }
        }
        let c = a.drop_last();
        let d = b.drop_last();
        lemma_drop_last(a, keys);
        lemma_drop_last(b, keys);
        lemma_key_order_unique(c, d, keys.remove(x));
        assert(a =~= c.push(x));
        assert(b =~= d.push(y));
    }
}

/// Without its last key, an order is one of the other keys.
proof fn lemma_drop_last<K: Ord>(a: Seq<K>, keys: Set<K>)
    requires
        obeys_cmp::<K>(),
        is_key_order(a, keys),
        a.len() > 0,
    ensures
        is_key_order(a.drop_last(), keys.remove(a.last())),
{
    let c = a.drop_last();
    assert(increasing_seq(c)) by {
        assert forall|i: int, j: int| 0 <= i < j < c.len() implies c[i].cmp_spec(&c[j]) is Less by {
            lemma_before_is_less(a, i, j);
        }
    }
    assert(c.to_set() =~= keys.remove(a.last())) by {
        assert forall|k: K| c.to_set().contains(k) <==> keys.remove(a.last()).contains(k) by {
            if c.to_set().contains(k) {
                let i = choose|i: int| 0 <= i < c.len() && c[i] == k;
                assert(a[i] == k);
                assert(a.to_set().contains(a[i]));
                assert(a[a.len() - 1] == a.last());
            }
            if keys.remove(a.last()).contains(k) {
                assert(a.to_set().contains(k));
                let i = choose|i: int| 0 <= i < a.len() && a[i] == k;
                assert(c[i] == k);
            }
        }
    }
}

/// An order of some keys is the order of those keys.
pub proof fn lemma_key_order<K: Ord>(order: Seq<K>, keys: Set<K>)
    requires
        obeys_cmp::<K>(),
        is_key_order(order, keys),
    ensures
        key_order(keys) == order,
{
    lemma_key_order_unique(key_order(keys), order, keys);
}

/// A walk over a map meets its keys in their order, each with its value.
pub proof fn lemma_map_walk<K: Ord, V>(entries: Seq<(&K, &V)>, m: Map<K, V>)
    requires
        obeys_cmp::<K>(),
        increasing_seq(entries.map_values(|entry: (&K, &V)| *entry.0)),
        entries.unref().to_set() == m.kv_pairs(),
    ensures
        key_order(m.dom()) == entries.map_values(|entry: (&K, &V)| *entry.0),
        forall|i: int|
            0 <= i < entries.len() ==> m.contains_key(*(#[trigger] entries[i]).0)
                && m[*entries[i].0] == *entries[i].1,
{
    let keys = entries.map_values(|entry: (&K, &V)| *entry.0);
    assert forall|i: int| 0 <= i < entries.len() implies m.contains_key(
        *(#[trigger] entries[i]).0,
    ) && m[*entries[i].0] == *entries[i].1 by {
        assert(entries.unref()[i] == (*entries[i].0, *entries[i].1));
        assert(entries.unref().to_set().contains(entries.unref()[i]));
        assert(m.kv_pairs().contains((*entries[i].0, *entries[i].1)));
    }
    assert(keys.no_duplicates()) by {
        assert forall|i: int, j: int| 0 <= i < j < keys.len() implies keys[i] != keys[j] by {
            lemma_before_is_less(keys, i, j);
            if keys[i] == keys[j] {
                lemma_less_is_one_way(keys[i], keys[j]);
            }
        }
    }
    assert(keys.to_set() =~= m.dom()) by {
        assert forall|k: K| m.dom().contains(k) implies keys.to_set().contains(k) by {
            assert(m.kv_pairs().contains((k, m[k])));
            assert(entries.unref().to_set().contains((k, m[k])));
            let i = choose|i: int|
                0 <= i < entries.unref().len() && entries.unref()[i] == (k, m[k]);
            assert(keys[i] == k);
        }
        assert forall|k: K| keys.to_set().contains(k) implies m.dom().contains(k) by {
            let i = choose|i: int| 0 <= i < keys.len() && keys[i] == k;
            assert(m.contains_key(*entries[i].0));
        }
    }
    lemma_key_order(keys, m.dom());
}

/// A walk over a set meets its elements in their order.
pub proof fn lemma_set_walk<K: Ord>(elements: Seq<&K>, s: Set<K>)
    requires
        obeys_cmp::<K>(),
        increasing_seq(elements),
        elements.unref().to_set() == s,
    ensures
        key_order(s) == elements.unref(),
{
    let keys = elements.unref();
    assert(increasing_seq(keys)) by {
        broadcast use vstd::laws_cmp::lemma_ref_obeys_cmp_spec;

        assert(obeys_cmp::<&K>());
        assert forall|i: int, j: int| 0 <= i < j < keys.len() implies keys[i].cmp_spec(
            &keys[j],
        ) is Less by {
            lemma_before_is_less(elements, i, j);
        }
    }
    assert(keys.no_duplicates()) by {
        assert forall|i: int, j: int| 0 <= i < j < keys.len() implies keys[i] != keys[j] by {
            lemma_before_is_less(keys, i, j);
            if keys[i] == keys[j] {
                lemma_less_is_one_way(keys[i], keys[j]);
            }
        }
    }
    lemma_key_order(keys, s);
}

/// Whether a hash is before another: its bytes are, compared from the first on.
pub open spec fn hash_before(a: Hash256, b: Hash256) -> bool {
    a.0 < b.0 || (a.0 == b.0 && a.1 < b.1)
}

/// Whether the place of an output is before another: by the transaction's id, then by the index.
pub open spec fn outpoint_before(a: OutPoint, b: OutPoint) -> bool {
    hash_before(a.0, b.0) || (a.0 == b.0 && a.1 < b.1)
}

/// Whether an anchor is before another: by the block's height and its hash, then by the time, then by
/// the transaction's id.
pub open spec fn anchor_before(a: AnchoredTx, b: AnchoredTx) -> bool {
    let (((height_a, hash_a), time_a), txid_a) = a;
    let (((height_b, hash_b), time_b), txid_b) = b;
    if height_a != height_b {
        height_a < height_b
    } else if hash_a != hash_b {
        hash_before(hash_a, hash_b)
    } else if time_a != time_b {
        time_a < time_b
    } else {
        hash_before(txid_a, txid_b)
    }
}

/// Whether each of the keys is listed once, and the one that stands before is the lesser.
pub open spec fn ascends<K>(order: Seq<K>, keys: Set<K>, before: spec_fn(K, K) -> bool) -> bool {
    &&& order.no_duplicates()
    &&& order.to_set() == keys
    &&& forall|i: int, j: int|
        0 <= i < j < order.len() ==> #[trigger] before(order[i], order[j])
}

/// Heights, ids, places of outputs and anchors are walked from the least to the greatest.
pub proof fn law_key_order(
    heights: Set<u32>,
    ids: Set<Hash256>,
    outpoints: Set<OutPoint>,
    anchors: Set<AnchoredTx>,
)
    requires
        heights.finite(),
        ids.finite(),
        outpoints.finite(),
        anchors.finite(),
    ensures
        ascends(key_order(heights), heights, |a: u32, b: u32| a < b),
        ascends(key_order(ids), ids, |a: Hash256, b: Hash256| hash_before(a, b)),
        ascends(
            key_order(outpoints),
            outpoints,
            |a: OutPoint, b: OutPoint| outpoint_before(a, b),
        ),
        ascends(key_order(anchors), anchors, |a: AnchoredTx, b: AnchoredTx| anchor_before(a, b)),
{
    lemma_keys_are_ordered();
    lemma_keys_are_told_apart();
    lemma_key_order_exists(heights);
    lemma_key_order_exists(ids);
    lemma_key_order_exists(outpoints);
    lemma_key_order_exists(anchors);
    assert forall|i: int, j: int| 0 <= i < j < key_order(heights).len() implies #[trigger] key_order(
        heights,
    )[i] < #[trigger] key_order(heights)[j] by {
        lemma_before_is_less(key_order(heights), i, j);
    }
    assert forall|i: int, j: int| 0 <= i < j < key_order(ids).len() implies hash_before(
        #[trigger] key_order(ids)[i],
        #[trigger] key_order(ids)[j],
    ) by {
        lemma_before_is_less(key_order(ids), i, j);
    }
    assert forall|i: int, j: int| 0 <= i < j < key_order(outpoints).len() implies outpoint_before(
        #[trigger] key_order(outpoints)[i],
        #[trigger] key_order(outpoints)[j],
    ) by {
        lemma_before_is_less(key_order(outpoints), i, j);
    }
    assert forall|i: int, j: int| 0 <= i < j < key_order(anchors).len() implies anchor_before(
        #[trigger] key_order(anchors)[i],
        #[trigger] key_order(anchors)[j],
    ) by {
        lemma_before_is_less(key_order(anchors), i, j);
    }
}

} // verus!
