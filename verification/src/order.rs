//! Deterministic, stable ordering of records by composite keys.
//!
//! Marker presentation, candidate ranking and focus selection all order records by
//! a tuple of integers followed by a byte string, breaking exact ties by the
//! record's input position. This module holds that one ordering and proves that
//! the order it produces is a sorted permutation.
use vstd::prelude::*;

verus! {

/// A composite ordering key: four integers compared in turn, then a byte string
/// compared lexicographically (a proper prefix sorts first).
pub struct SortKey {
    pub k0: u64,
    pub k1: u64,
    pub k2: u64,
    pub k3: u128,
    pub tail: Vec<u8>,
}

pub type SortKeyView = (u64, u64, u64, u128, Seq<u8>);

impl View for SortKey {
    type V = SortKeyView;

    open spec fn view(&self) -> SortKeyView {
        (self.k0, self.k1, self.k2, self.k3, self.tail@)
    }
}

/// Lexicographic "strictly less" on byte strings, as `Vec<u8>` orders them.
pub open spec fn bytes_lt(a: Seq<u8>, b: Seq<u8>) -> bool
    decreases a.len(),
{
    if a.len() == 0 {
        b.len() > 0
    } else if b.len() == 0 {
        false
    } else if a[0] < b[0] {
        true
    } else if a[0] > b[0] {
        false
    } else {
        bytes_lt(a.drop_first(), b.drop_first())
    }
}

/// Lexicographic "strictly less" on composite keys.
pub open spec fn key_lt(a: SortKeyView, b: SortKeyView) -> bool {
    ||| a.0 < b.0
    ||| a.0 == b.0 && a.1 < b.1
    ||| a.0 == b.0 && a.1 == b.1 && a.2 < b.2
    ||| a.0 == b.0 && a.1 == b.1 && a.2 == b.2 && a.3 < b.3
    ||| a.0 == b.0 && a.1 == b.1 && a.2 == b.2 && a.3 == b.3 && bytes_lt(a.4, b.4)
}

/// Position `i` strictly precedes position `j` in the stable order: a smaller key,
/// or an equal key at an earlier position.
pub open spec fn entry_lt(keys: Seq<SortKeyView>, i: int, j: int) -> bool {
    key_lt(keys[i], keys[j]) || (keys[i] == keys[j] && i < j)
}

/// The first position at or after `p` in `order` whose key is strictly greater than
/// the key at position `i` of `keys` (or the end of `order`).
pub open spec fn first_greater(keys: Seq<SortKeyView>, order: Seq<usize>, i: int, p: int) -> int
    decreases order.len() - p,
{
    if p >= order.len() {
        order.len() as int
    } else if key_lt(keys[i], keys[order[p] as int]) {
        p
    } else {
        first_greater(keys, order, i, p + 1)
    }
}

/// The stable order of the first `n` positions of `keys`: each position is placed
/// after every earlier position whose key is not greater than its own.
pub open spec fn stable_order(keys: Seq<SortKeyView>, n: nat) -> Seq<usize>
    decreases n,
{
    if n == 0 {
        Seq::empty()
    } else {
        let o = stable_order(keys, (n - 1) as nat);
        o.insert(first_greater(keys, o, n - 1, 0), (n - 1) as usize)
    }
}

/// `order` lists the positions `0..n` exactly once each, sorted by `entry_lt`.
pub open spec fn is_sorted_permutation(keys: Seq<SortKeyView>, order: Seq<usize>, n: nat) -> bool {
    &&& order.len() == n
    &&& forall|a: int| 0 <= a < order.len() ==> order[a] < n
    &&& forall|a: int, b: int| 0 <= a < b < order.len() ==> order[a] != order[b]
    &&& forall|a: int, b: int|
        0 <= a < b < order.len() ==> #[trigger] entry_lt(keys, order[a] as int, order[b] as int)
}

pub proof fn lemma_bytes_lt_irreflexive(a: Seq<u8>)
    ensures
        !bytes_lt(a, a),
    decreases a.len(),
{
    if a.len() > 0 {
        lemma_bytes_lt_irreflexive(a.drop_first());
    }
}

pub proof fn lemma_bytes_lt_transitive(a: Seq<u8>, b: Seq<u8>, c: Seq<u8>)
    requires
        bytes_lt(a, b),
        bytes_lt(b, c),
    ensures
        bytes_lt(a, c),
    decreases a.len(),
{
    if a.len() > 0 && b.len() > 0 && c.len() > 0 && a[0] == b[0] && b[0] == c[0] {
        lemma_bytes_lt_transitive(a.drop_first(), b.drop_first(), c.drop_first());
    }
}

pub proof fn lemma_bytes_lt_total(a: Seq<u8>, b: Seq<u8>)
    ensures
        bytes_lt(a, b) || a == b || bytes_lt(b, a),
    decreases a.len(),
{
    if a.len() > 0 && b.len() > 0 && a[0] == b[0] {
        lemma_bytes_lt_total(a.drop_first(), b.drop_first());
        if a.drop_first() == b.drop_first() {
            assert(a =~= seq![a[0]] + a.drop_first());
            assert(b =~= seq![b[0]] + b.drop_first());
        }
    } else if a.len() == 0 && b.len() == 0 {
        assert(a =~= b);
    }
}

pub proof fn lemma_bytes_lt_asymmetric(a: Seq<u8>, b: Seq<u8>)
    requires
        bytes_lt(a, b),
    ensures
        !bytes_lt(b, a),
{
    if bytes_lt(b, a) {
        lemma_bytes_lt_transitive(a, b, a);
        lemma_bytes_lt_irreflexive(a);
    }
}

/// `key_lt` is a strict total order on keys.
pub proof fn lemma_key_lt_strict_total(a: SortKeyView, b: SortKeyView, c: SortKeyView)
    ensures
        !key_lt(a, a),
        key_lt(a, b) || a == b || key_lt(b, a),
        key_lt(a, b) ==> !key_lt(b, a),
        key_lt(a, b) && key_lt(b, c) ==> key_lt(a, c),
{
    lemma_bytes_lt_irreflexive(a.4);
    lemma_bytes_lt_total(a.4, b.4);
    if bytes_lt(a.4, b.4) {
        lemma_bytes_lt_asymmetric(a.4, b.4);
    }
    if bytes_lt(a.4, b.4) && bytes_lt(b.4, c.4) {
        lemma_bytes_lt_transitive(a.4, b.4, c.4);
    }
}

proof fn lemma_first_greater_bounds(keys: Seq<SortKeyView>, order: Seq<usize>, i: int, p: int)
    requires
        0 <= p <= order.len(),
    ensures
        p <= first_greater(keys, order, i, p) <= order.len(),
        forall|q: int|
            p <= q < first_greater(keys, order, i, p) ==> !key_lt(
                keys[i],
                keys[#[trigger] order[q] as int],
            ),
        first_greater(keys, order, i, p) < order.len() ==> key_lt(
            keys[i],
            keys[order[first_greater(keys, order, i, p)] as int],
        ),
    decreases order.len() - p,
{
    if p < order.len() && !key_lt(keys[i], keys[order[p] as int]) {
        lemma_first_greater_bounds(keys, order, i, p + 1);
    }
}

/// Every position `0..n` occurs in the stable order of `n` keys.
pub proof fn lemma_stable_order_covers(keys: Seq<SortKeyView>, n: nat, k: int)
    requires
        n <= keys.len(),
        n <= usize::MAX,
        0 <= k < n,
    ensures
        exists|j: int| 0 <= j < n && stable_order(keys, n)[j] == k,
    decreases n,
{
    lemma_stable_order_sorted_permutation(keys, n);
    let m = (n - 1) as nat;
    let o = stable_order(keys, m);
    lemma_stable_order_sorted_permutation(keys, m);
    let p = first_greater(keys, o, n - 1, 0);
    lemma_first_greater_bounds(keys, o, n - 1, 0);
    let s = stable_order(keys, n);
    assert(s == o.insert(p, (n - 1) as usize));
    if k == n - 1 {
        assert(s[p] == k);
    } else {
        lemma_stable_order_covers(keys, m, k);
        let j = choose|j: int| 0 <= j < m && o[j] == k;
        if j < p {
            assert(s[j] == k);
        } else {
            assert(s[j + 1] == k);
        }
    }
}

/// Law: the stable order of `n` keys is a sorted permutation of `0..n`.
pub proof fn lemma_stable_order_sorted_permutation(keys: Seq<SortKeyView>, n: nat)
    requires
        n <= keys.len(),
        n <= usize::MAX,
    ensures
        is_sorted_permutation(keys, stable_order(keys, n), n),
    decreases n,
{
    if n > 0 {
        let m = (n - 1) as nat;
        lemma_stable_order_sorted_permutation(keys, m);
        let o = stable_order(keys, m);
        let i = n - 1;
        lemma_first_greater_bounds(keys, o, i, 0);
        let p = first_greater(keys, o, i, 0);
        let o2 = o.insert(p, i as usize);
        o.insert_ensures(p, i as usize);
        assert(o2 == stable_order(keys, n));
        assert forall|a: int| 0 <= a < o2.len() implies o2[a] < n by {
            if a < p {
            } else if a == p {
            } else {
                assert(o2[a] == o[a - 1]);
            }
        }
        assert(o2[p] == i);
        assert forall|a: int, b: int| 0 <= a < b < o2.len() implies o2[a] != o2[b] by {
            if b < p {
            } else if b == p {
                assert(o2[a] == o[a]);
                assert(o[a] < m);
            } else if a < p {
                assert(o2[b] == o[b - 1]);
            } else if a == p {
                assert(o2[b] == o[b - 1]);
                assert(o[b - 1] < m);
            } else {
                assert(o2[a] == o[a - 1]);
                assert(o2[b] == o[b - 1]);
            }
        }
        assert forall|a: int, b: int| 0 <= a < b < o2.len() implies #[trigger] entry_lt(
            keys,
            o2[a] as int,
            o2[b] as int,
        ) by {
            if b < p {
                assert(o2[a] == o[a]);
                assert(o2[b] == o[b]);
                assert(entry_lt(keys, o[a] as int, o[b] as int));
            } else if b == p {
                assert(o2[a] == o[a]);
                let x = o[a] as int;
                assert(x < i);
                assert(!key_lt(keys[i], keys[x]));
                lemma_key_lt_strict_total(keys[x], keys[i], keys[i]);
            } else if a < p {
                assert(o2[a] == o[a]);
                assert(o2[b] == o[b - 1]);
                assert(entry_lt(keys, o[a] as int, o[b - 1] as int));
            } else if a == p {
                let y = o[b - 1] as int;
                assert(o2[b] == o[b - 1]);
                assert(y < i);
                let z = o[p] as int;
                assert(key_lt(keys[i], keys[z]));
                if b - 1 > p {
                    assert(entry_lt(keys, o[p] as int, o[b - 1] as int));
                }
                lemma_key_lt_strict_total(keys[i], keys[z], keys[y]);
            } else {
                assert(o2[a] == o[a - 1]);
                assert(o2[b] == o[b - 1]);
                assert(entry_lt(keys, o[a - 1] as int, o[b - 1] as int));
            }
        }
    }
}

/// Compares two byte strings lexicographically.
pub fn bytes_less(a: &Vec<u8>, b: &Vec<u8>) -> (r: bool)
    ensures
        r == bytes_lt(a@, b@),
{
    let mut i: usize = 0;
    assert(a@.skip(0) =~= a@);
    assert(b@.skip(0) =~= b@);
    while i < a.len() && i < b.len()
        invariant
            i <= a.len(),
            i <= b.len(),
            bytes_lt(a@, b@) == bytes_lt(a@.skip(i as int), b@.skip(i as int)),
        decreases a.len() - i,
    {
        if a[i] < b[i] {
            return true;
        }
        if a[i] > b[i] {
            return false;
        }
        assert(a@.skip(i as int).drop_first() =~= a@.skip(i + 1));
        assert(b@.skip(i as int).drop_first() =~= b@.skip(i + 1));
        i = i + 1;
    }
    i < b.len()
}

/// Compares two composite keys.
pub fn key_less(a: &SortKey, b: &SortKey) -> (r: bool)
    ensures
        r == key_lt(a@, b@),
{
    if a.k0 != b.k0 {
        return a.k0 < b.k0;
    }
    if a.k1 != b.k1 {
        return a.k1 < b.k1;
    }
    if a.k2 != b.k2 {
        return a.k2 < b.k2;
    }
    if a.k3 != b.k3 {
        return a.k3 < b.k3;
    }
    bytes_less(&a.tail, &b.tail)
}

pub open spec fn key_views(keys: Seq<SortKey>) -> Seq<SortKeyView> {
    keys.map_values(|k: SortKey| k@)
}

/// Computes the stable order of `keys`: positions sorted by key, exact ties kept in
/// their input relative order.
pub fn stable_sort_order(keys: &Vec<SortKey>) -> (order: Vec<usize>)
    ensures
        order@ == stable_order(key_views(keys@), keys.len() as nat),
        is_sorted_permutation(key_views(keys@), order@, keys.len() as nat),
{
    let ghost kv = key_views(keys@);
    let mut order: Vec<usize> = Vec::new();
    let n = keys.len();
    let mut i: usize = 0;
    while i < n
        invariant
            n == keys.len(),
            kv == key_views(keys@),
            kv.len() == n,
            i <= n,
            order@ == stable_order(kv, i as nat),
            is_sorted_permutation(kv, order@, i as nat),
        decreases n - i,
    {
        let mut p: usize = 0;
        while p < order.len() && !key_less(&keys[i], &keys[order[p]])
            invariant
                n == keys.len(),
                kv == key_views(keys@),
                kv.len() == n,
                i < n,
                p <= order.len(),
                is_sorted_permutation(kv, order@, i as nat),
                first_greater(kv, order@, i as int, 0) == first_greater(kv, order@, i as int, p as int),
            decreases order.len() - p,
        {
            assert(kv[i as int] == keys@[i as int]@);
            assert(kv[order@[p as int] as int] == keys@[order@[p as int] as int]@);
            p = p + 1;
        }
        proof {
            if p < order.len() {
                assert(kv[i as int] == keys@[i as int]@);
                assert(kv[order@[p as int] as int] == keys@[order@[p as int] as int]@);
            }
            assert(first_greater(kv, order@, i as int, p as int) == p);
        }
        order.insert(p, i);
        i = i + 1;
        proof {
            lemma_stable_order_sorted_permutation(kv, i as nat);
        }
    }
    order
}

} // verus!
