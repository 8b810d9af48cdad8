//! Stable ordering: the order in which a stable sort by key would list a
//! sequence of items, given as the items' indices.

use vstd::prelude::*;

use crate::text::{lemma_text_lt_irreflexive, lemma_text_lt_total, lemma_text_lt_transitive, text_less, text_lt};

verus! {

/// A sort key whose view is ordered by a strict weak order.
pub trait OrderKey: View + Sized {
    /// `a` sorts strictly before `b`.
    spec fn key_lt(a: Self::V, b: Self::V) -> bool;

    /// No key sorts before itself.
    proof fn lemma_key_irreflexive(a: Self::V)
        ensures
            !Self::key_lt(a, a),
    ;

    /// The order is transitive.
    proof fn lemma_key_transitive(a: Self::V, b: Self::V, c: Self::V)
        requires
            Self::key_lt(a, b),
            Self::key_lt(b, c),
        ensures
            Self::key_lt(a, c),
    ;

    /// Any key lies below the greater or above the smaller of two ordered keys.
    proof fn lemma_key_negative_transitive(a: Self::V, b: Self::V, c: Self::V)
        requires
            Self::key_lt(a, c),
        ensures
            Self::key_lt(a, b) || Self::key_lt(b, c),
    ;

    /// Whether `self` sorts strictly before `other`.
    fn key_less(&self, other: &Self) -> (r: bool)
        ensures
            r == Self::key_lt(self@, other@),
    ;
}

/// Strings ordered by code point, as `str` orders them.
impl OrderKey for String {
    open spec fn key_lt(a: Seq<char>, b: Seq<char>) -> bool {
        text_lt(a, b)
    }

    proof fn lemma_key_irreflexive(a: Seq<char>) {
        lemma_text_lt_irreflexive(a);
    }

    proof fn lemma_key_transitive(a: Seq<char>, b: Seq<char>, c: Seq<char>) {
        lemma_text_lt_transitive(a, b, c);
    }

    proof fn lemma_key_negative_transitive(a: Seq<char>, b: Seq<char>, c: Seq<char>) {
        if a != b {
            lemma_text_lt_total(a, b);
            if text_lt(b, a) {
                lemma_text_lt_transitive(b, a, c);
            }
        }
    }

    fn key_less(&self, other: &Self) -> (r: bool) {
        text_less(self.as_str(), other.as_str())
    }
}

/// Optional instants, ordered as `Option` orders them: `None` first.
impl OrderKey for Option<i128> {
    open spec fn key_lt(a: Option<i128>, b: Option<i128>) -> bool {
        match (a, b) {
            (None, Some(_)) => true,
            (Some(x), Some(y)) => x < y,
            _ => false,
        }
    }

    proof fn lemma_key_irreflexive(a: Option<i128>) {
    }

    proof fn lemma_key_transitive(a: Option<i128>, b: Option<i128>, c: Option<i128>) {
    }

    proof fn lemma_key_negative_transitive(a: Option<i128>, b: Option<i128>, c: Option<i128>) {
    }

    fn key_less(&self, other: &Self) -> (r: bool) {
        match (self, other) {
            (None, Some(_)) => true,
            (Some(x), Some(y)) => *x < *y,
            _ => false,
        }
    }
}

/// The views of a sequence of keys.
pub open spec fn key_views<K: OrderKey>(keys: Seq<K>) -> Seq<K::V> {
    keys.map_values(|k: K| k@)
}

/// Item `i` comes before item `j` in a stable sort by key: its key is
/// smaller, or the keys tie and it came first.
pub open spec fn precedes<K: OrderKey>(keys: Seq<K::V>, i: int, j: int) -> bool {
    K::key_lt(keys[i], keys[j]) || (!K::key_lt(keys[j], keys[i]) && i < j)
}

/// `order` lists, in stably sorted order, the first `count` items of a
/// stable sort of `keys`: all different indices of `keys`, each before the
/// next, and each before every index it leaves out.
pub open spec fn is_stable_order<K: OrderKey>(keys: Seq<K::V>, order: Seq<usize>, count: nat) -> bool {
    &&& order.len() == count
    &&& forall|p: int| 0 <= p < order.len() ==> (#[trigger] order[p]) < keys.len()
    &&& forall|p: int, q: int|
        0 <= p < q < order.len() ==> precedes::<K>(keys, #[trigger] order[p] as int, #[trigger] order[q] as int)
    &&& forall|p: int, x: usize|
        0 <= p < order.len() && x < keys.len() && !order.contains(x) ==> #[trigger] precedes::<K>(
            keys,
            order[p] as int,
            x as int,
        )
}

/// `precedes` is irreflexive.
pub proof fn lemma_precedes_irreflexive<K: OrderKey>(keys: Seq<K::V>, i: int)
    requires
        0 <= i < keys.len(),
    ensures
        !precedes::<K>(keys, i, i),
{
    K::lemma_key_irreflexive(keys[i]);
}

/// `precedes` is transitive.
pub proof fn lemma_precedes_transitive<K: OrderKey>(keys: Seq<K::V>, i: int, j: int, k: int)
    requires
        0 <= i < keys.len(),
        0 <= j < keys.len(),
        0 <= k < keys.len(),
        precedes::<K>(keys, i, j),
        precedes::<K>(keys, j, k),
    ensures
        precedes::<K>(keys, i, k),
{
    let (a, b, c) = (keys[i], keys[j], keys[k]);
    if K::key_lt(a, b) && K::key_lt(b, c) {
        K::lemma_key_transitive(a, b, c);
    } else if K::key_lt(a, b) {
        K::lemma_key_negative_transitive(a, c, b);
    } else if K::key_lt(b, c) {
        K::lemma_key_negative_transitive(b, a, c);
    } else {
        if K::key_lt(c, a) {
            K::lemma_key_negative_transitive(c, b, a);
        }
    }
}

/// Of two different items, one precedes the other.
pub proof fn lemma_precedes_total<K: OrderKey>(keys: Seq<K::V>, i: int, j: int)
    requires
        0 <= i < keys.len(),
        0 <= j < keys.len(),
        i != j,
    ensures
        precedes::<K>(keys, i, j) || precedes::<K>(keys, j, i),
{
}

/// No two items precede each other.
pub proof fn lemma_precedes_asymmetric<K: OrderKey>(keys: Seq<K::V>, i: int, j: int)
    requires
        0 <= i < keys.len(),
        0 <= j < keys.len(),
        precedes::<K>(keys, i, j),
    ensures
        !precedes::<K>(keys, j, i),
{
    if precedes::<K>(keys, j, i) {
        lemma_precedes_transitive::<K>(keys, i, j, i);
        lemma_precedes_irreflexive::<K>(keys, i);
    }
}

/// There is only one stable order of a given length: the contract of
/// `stable_order` fixes its result.
pub proof fn lemma_stable_order_unique<K: OrderKey>(keys: Seq<K::V>, a: Seq<usize>, b: Seq<usize>, count: nat)
    requires
        is_stable_order::<K>(keys, a, count),
        is_stable_order::<K>(keys, b, count),
    ensures
        a == b,
{
    assert forall|p: int| 0 <= p < count implies a[p] == b[p] by {
        lemma_stable_order_prefix::<K>(keys, a, b, count, p);
    }
    assert(a =~= b);
}

proof fn lemma_stable_order_prefix<K: OrderKey>(keys: Seq<K::V>, a: Seq<usize>, b: Seq<usize>, count: nat, p: int)
    requires
        is_stable_order::<K>(keys, a, count),
        is_stable_order::<K>(keys, b, count),
        0 <= p < count,
    ensures
        a[p] == b[p],
    decreases p,
{
    assert forall|q: int| 0 <= q < p implies a[q] == b[q] by {
        lemma_stable_order_prefix::<K>(keys, a, b, count, q);
    }
    let x = a[p];
    let y = b[p];
    if x != y {
        // y does not occur in a before p, and x does not occur in b before p.
        assert(precedes::<K>(keys, x as int, y as int)) by {
            if a.contains(y) {
                let q = choose|q: int| 0 <= q < a.len() && a[q] == y;
                if q < p {
                    assert(b[q] == y);
                    assert(precedes::<K>(keys, b[q] as int, b[p] as int));
                    lemma_precedes_irreflexive::<K>(keys, y as int);
                } else if q == p {
                } else {
                    assert(precedes::<K>(keys, a[p] as int, a[q] as int));
                }
            }
        }
        assert(precedes::<K>(keys, y as int, x as int)) by {
            if b.contains(x) {
                let q = choose|q: int| 0 <= q < b.len() && b[q] == x;
                if q < p {
                    assert(a[q] == x);
                    assert(precedes::<K>(keys, a[q] as int, a[p] as int));
                    lemma_precedes_irreflexive::<K>(keys, x as int);
                } else if q == p {
                } else {
                    assert(precedes::<K>(keys, b[p] as int, b[q] as int));
                }
            }
        }
        lemma_precedes_asymmetric::<K>(keys, x as int, y as int);
    }
}

fn precedes_exec<K: OrderKey>(keys: &Vec<K>, i: usize, j: usize) -> (r: bool)
    requires
        i < keys.len(),
        j < keys.len(),
    ensures
        r == precedes::<K>(key_views::<K>(keys@), i as int, j as int),
{
    keys[i].key_less(&keys[j]) || (!keys[j].key_less(&keys[i]) && i < j)
}

/// The indices of the first `count` items of a stable sort of `keys` by
/// key, in sorted order.
pub fn stable_order<K: OrderKey>(keys: &Vec<K>, count: usize) -> (order: Vec<usize>)
    requires
        count <= keys.len(),
    ensures
        is_stable_order::<K>(key_views::<K>(keys@), order@, count as nat),
{
    let n = keys.len();
    let mut sorted: Vec<usize> = Vec::new();
    let mut i: usize = 0;
    while i < n
        invariant
            n == keys.len(),
            i <= n,
            sorted.len() == i,
            forall|q: int| 0 <= q < sorted.len() ==> (#[trigger] sorted@[q]) < i,
            forall|x: usize| x < i ==> #[trigger] sorted@.contains(x),
            forall|p: int, q: int|
                0 <= p < q < sorted.len() ==> precedes::<K>(key_views::<K>(keys@), #[trigger] sorted@[p] as int, #[trigger] sorted@[q] as int),
        decreases n - i,
    {
        let mut pos: usize = 0;
        while pos < sorted.len() && !precedes_exec(keys, i, sorted[pos])
            invariant
                n == keys.len(),
                i < n,
                pos <= sorted.len(),
                forall|q: int| 0 <= q < sorted.len() ==> (#[trigger] sorted@[q]) < i,
                forall|q: int| 0 <= q < pos ==> precedes::<K>(key_views::<K>(keys@), #[trigger] sorted@[q] as int, i as int),
            decreases sorted.len() - pos,
        {
            proof {
                lemma_precedes_total::<K>(key_views::<K>(keys@), i as int, sorted@[pos as int] as int);
            }
            pos = pos + 1;
        }
        let ghost before = sorted@;
        proof {
            if pos < before.len() {
                assert forall|q: int| pos <= q < before.len() implies precedes::<K>(key_views::<K>(keys@), i as int, #[trigger] before[q] as int) by {
                    if q > pos {
                        lemma_precedes_transitive::<K>(key_views::<K>(keys@), i as int, before[pos as int] as int, before[q] as int);
                    }
                }
            }
        }
        sorted.insert(pos, i);
        assert(sorted@ =~= before.insert(pos as int, i));
        assert forall|x: usize| x < i + 1 implies #[trigger] sorted@.contains(x) by {
            if x == i {
                assert(sorted@[pos as int] == i);
            } else {
                assert(before.contains(x));
                let q = choose|q: int| 0 <= q < before.len() && before[q] == x;
                if q < pos {
                    assert(sorted@[q] == x);
                } else {
                    assert(sorted@[q + 1] == x);
                }
            }
        }
        assert forall|p: int, q: int|
            0 <= p < q < sorted.len() implies precedes::<K>(key_views::<K>(keys@), #[trigger] sorted@[p] as int, #[trigger] sorted@[q] as int) by {
            if p < pos && q < pos {
                assert(precedes::<K>(key_views::<K>(keys@), before[p] as int, before[q] as int));
            } else if p < pos && q == pos {
            } else if p < pos {
                assert(precedes::<K>(key_views::<K>(keys@), before[p] as int, before[q - 1] as int));
            } else if p == pos {
            } else {
                assert(precedes::<K>(key_views::<K>(keys@), before[p - 1] as int, before[q - 1] as int));
            }
        }
        i = i + 1;
    }
    let ghost full = sorted@;
    sorted.truncate(count);
    assert(sorted@ =~= full.take(count as int));
    assert forall|p: int, x: usize|
        0 <= p < sorted@.len() && x < key_views::<K>(keys@).len() && !sorted@.contains(x) implies #[trigger] precedes::<K>(
            key_views::<K>(keys@),
            sorted@[p] as int,
            x as int,
        ) by {
        assert(full.contains(x));
        let q = choose|q: int| 0 <= q < full.len() && full[q] == x;
        if q < count {
            assert(sorted@[q] == x);
        } else {
            assert(precedes::<K>(key_views::<K>(keys@), full[p] as int, full[q] as int));
        }
    }
    sorted
}

} // verus!
