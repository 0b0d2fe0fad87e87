use vstd::prelude::*;

verus! {

/// `a` sorts before `b` when the keys are compared position by position,
/// a larger number first, and a key that runs out first sorts first.
pub open spec fn key_precedes(a: Seq<i64>, b: Seq<i64>) -> bool
    decreases a.len(),
{
    if a.len() == 0 {
        b.len() > 0
    } else if b.len() == 0 {
        false
    } else if a[0] != b[0] {
        a[0] > b[0]
    } else {
        key_precedes(a.drop_first(), b.drop_first())
    }
}

/// No key sorts before itself.
pub proof fn lemma_key_precedes_irreflexive(a: Seq<i64>)
    ensures
        !key_precedes(a, a),
    decreases a.len(),
{
    if a.len() > 0 {
        lemma_key_precedes_irreflexive(a.drop_first());
    }
}

/// The order of keys is transitive.
pub proof fn lemma_key_precedes_transitive(a: Seq<i64>, b: Seq<i64>, c: Seq<i64>)
    requires
        key_precedes(a, b),
        key_precedes(b, c),
    ensures
        key_precedes(a, c),
    decreases a.len(),
{
    if a.len() > 0 && b.len() > 0 && c.len() > 0 && a[0] == b[0] && b[0] == c[0] {
        lemma_key_precedes_transitive(a.drop_first(), b.drop_first(), c.drop_first());
    }
}

/// Of two different keys, one sorts before the other.
pub proof fn lemma_key_precedes_total(a: Seq<i64>, b: Seq<i64>)
    ensures
        key_precedes(a, b) || key_precedes(b, a) || a =~= b,
    decreases a.len(),
{
    if a.len() > 0 && b.len() > 0 && a[0] == b[0] {
        lemma_key_precedes_total(a.drop_first(), b.drop_first());
        if a.drop_first() =~= b.drop_first() {
            assert(a =~= seq![a[0]] + a.drop_first());
            assert(b =~= seq![b[0]] + b.drop_first());
        }
    }
}

/// Two keys never sort before each other.
pub proof fn lemma_key_precedes_asymmetric(a: Seq<i64>, b: Seq<i64>)
    requires
        key_precedes(a, b),
    ensures
        !key_precedes(b, a),
{
    if key_precedes(b, a) {
        lemma_key_precedes_transitive(a, b, a);
        lemma_key_precedes_irreflexive(a);
    }
}

/// Whether key `a` sorts before key `b`.
pub fn precedes(a: &Vec<i64>, b: &Vec<i64>) -> (r: bool)
    ensures
        r == key_precedes(a@, b@),
{
    let mut k: usize = 0;
    assert(a@.skip(0) =~= a@);
    assert(b@.skip(0) =~= b@);
    while k < a.len() && k < b.len()
        invariant
            k <= a@.len(),
            k <= b@.len(),
            a@.subrange(0, k as int) == b@.subrange(0, k as int),
            key_precedes(a@, b@) == key_precedes(a@.skip(k as int), b@.skip(k as int)),
        decreases a@.len() - k,
    {
        if a[k] != b[k] {
            return a[k] > b[k];
        }
        proof {
            let sa = a@.skip(k as int);
            let sb = b@.skip(k as int);
            assert(sa.drop_first() =~= a@.skip(k + 1));
            assert(sb.drop_first() =~= b@.skip(k + 1));
            assert(a@.subrange(0, k + 1) =~= a@.subrange(0, k as int).push(a@[k as int]));
            assert(b@.subrange(0, k + 1) =~= b@.subrange(0, k as int).push(b@[k as int]));
        }
        k = k + 1;
    }
    a.len() < b.len()
}

/// Position `i` of the keys sorts before position `j`: by key, and by position
/// where the keys are equal.
pub open spec fn ordered_before(keys: Seq<Seq<i64>>, i: int, j: int) -> bool {
    key_precedes(keys[i], keys[j]) || (keys[i] == keys[j] && i < j)
}

/// `order` lists the positions `0..keys.len()` once each, sorted by their keys,
/// larger keys first, equal keys in their original order.
pub open spec fn is_stable_order(keys: Seq<Seq<i64>>, order: Seq<usize>) -> bool {
    &&& order.len() == keys.len()
    &&& forall|p: int| 0 <= p < order.len() ==> order[p] < keys.len()
    &&& forall|p: int, q: int|
        0 <= p < q < order.len() ==> ordered_before(keys, order[p] as int, order[q] as int)
}

proof fn lemma_ordered_before_transitive(keys: Seq<Seq<i64>>, i: int, j: int, k: int)
    requires
        ordered_before(keys, i, j),
        ordered_before(keys, j, k),
    ensures
        ordered_before(keys, i, k),
{
    if key_precedes(keys[i], keys[j]) && key_precedes(keys[j], keys[k]) {
        lemma_key_precedes_transitive(keys[i], keys[j], keys[k]);
    }
}

/// Sorts the positions of `keys`: larger keys first, equal keys in the order in
/// which they come.
pub fn stable_order(keys: &Vec<Vec<i64>>) -> (order: Vec<usize>)
    ensures
        is_stable_order(keys@.map_values(|k: Vec<i64>| k@), order@),
{
    let ghost ks = keys@.map_values(|k: Vec<i64>| k@);
    let mut order: Vec<usize> = Vec::new();
    let mut i: usize = 0;
    while i < keys.len()
        invariant
            i <= keys@.len(),
            ks == keys@.map_values(|k: Vec<i64>| k@),
            order@.len() == i,
            forall|p: int| 0 <= p < order@.len() ==> order@[p] < i,
            forall|p: int, q: int|
                0 <= p < q < order@.len() ==> ordered_before(ks, order@[p] as int, order@[q] as int),
        decreases keys@.len() - i,
    {
        // The first position whose key sorts after key `i`.
        let mut pos: usize = 0;
        while pos < order.len() && !precedes(&keys[i], &keys[order[pos]])
            invariant
                pos <= order@.len(),
                i < keys@.len(),
                ks == keys@.map_values(|k: Vec<i64>| k@),
                forall|p: int| 0 <= p < order@.len() ==> order@[p] < i,
                forall|p: int| 0 <= p < pos ==> !key_precedes(ks[i as int], ks[order@[p] as int]),
            decreases order@.len() - pos,
        {
            pos = pos + 1;
        }
        proof {
            // Everything before `pos` sorts before `i`; everything from `pos` on after it.
            assert forall|p: int| 0 <= p < pos implies ordered_before(ks, order@[p] as int, i as int) by {
                lemma_key_precedes_total(ks[i as int], ks[order@[p] as int]);
            }
            if pos < order@.len() {
                assert(key_precedes(ks[i as int], ks[order@[pos as int] as int]));
                assert forall|q: int| pos <= q < order@.len() implies ordered_before(ks, i as int, order@[q] as int) by {
                    if q > pos {
                        assert(ordered_before(ks, order@[pos as int] as int, order@[q] as int));
                        lemma_ordered_before_transitive(ks, i as int, order@[pos as int] as int, order@[q] as int);
                    }
                }
            }
        }
        let ghost before = order@;
        order.insert(pos, i);
        proof {
            assert forall|p: int, q: int|
                0 <= p < q < order@.len() implies ordered_before(ks, order@[p] as int, order@[q] as int) by {
                if q < pos {
                    assert(order@[p] == before[p] && order@[q] == before[q]);
                } else if q == pos {
                    assert(order@[p] == before[p]);
                } else if p == pos {
                    assert(order@[q] == before[q - 1]);
                } else if p < pos {
                    assert(order@[p] == before[p] && order@[q] == before[q - 1]);
                } else {
                    assert(order@[p] == before[p - 1] && order@[q] == before[q - 1]);
                }
            }
        }
        i = i + 1;
    }
    order
}

/// The items taken in the order given by `order`.
pub open spec fn permute<T>(items: Seq<T>, order: Seq<usize>) -> Seq<T> {
    order.map_values(|k: usize| items[k as int])
}

/// Sorts `items` by their keys: larger keys first, items with equal keys in the
/// order in which they come.
pub fn order_by_keys<T: Copy>(items: &Vec<T>, keys: &Vec<Vec<i64>>) -> (r: Vec<T>)
    requires
        items@.len() == keys@.len(),
    ensures
        exists|order: Seq<usize>|
            is_stable_order(keys@.map_values(|k: Vec<i64>| k@), order) && r@ == permute(
                items@,
                order,
            ),
{
    let order = stable_order(keys);
    let mut r: Vec<T> = Vec::new();
    let mut p: usize = 0;
    while p < order.len()
        invariant
            p <= order@.len(),
            order@.len() == items@.len(),
            forall|q: int| 0 <= q < order@.len() ==> order@[q] < items@.len(),
            r@ =~= permute(items@, order@).subrange(0, p as int),
        decreases order@.len() - p,
    {
        r.push(items[order[p]]);
        p = p + 1;
    }
    assert(r@ =~= permute(items@, order@));
    r
}

} // verus!
