//! The order in which rows are listed: by a key from the largest to the
//! smallest, rows with one key in the order in which they are stored.

use vstd::prelude::*;

verus! {

/// `order` with the position `k` put in: behind every position whose key is
/// not smaller than that of `k`, before the others.
pub open spec fn place(keys: Seq<u64>, order: Seq<usize>, k: usize) -> Seq<usize>
    decreases order.len(),
{
    if order.len() == 0 {
        seq![k]
    } else if keys[order.last() as int] >= keys[k as int] {
        order.push(k)
    } else {
        place(keys, order.drop_last(), k).push(order.last())
    }
}

/// The first `n` positions of `keys`, in descending order of their keys.
pub open spec fn order_of_prefix(keys: Seq<u64>, n: nat) -> Seq<usize>
    decreases n,
{
    if n == 0 {
        Seq::empty()
    } else {
        place(keys, order_of_prefix(keys, (n - 1) as nat), (n - 1) as usize)
    }
}

/// The positions of `keys` in descending order of their keys; positions with
/// one key in ascending order.
pub open spec fn descending_order(keys: Seq<u64>) -> Seq<usize> {
    order_of_prefix(keys, keys.len())
}

/// Whether `order` lists the first `n` positions of `keys`, each once, from
/// the largest key to the smallest, and positions with one key in ascending
/// order.
pub open spec fn is_descending_order(keys: Seq<u64>, n: nat, order: Seq<usize>) -> bool {
    &&& order.len() == n
    &&& forall|i: int| 0 <= i < order.len() ==> (#[trigger] order[i]) < n
    &&& forall|k: usize| k < n ==> #[trigger] order.contains(k)
    &&& forall|i: int, j: int|
        0 <= i < j < order.len() ==> {
            ||| keys[#[trigger] order[i] as int] > keys[#[trigger] order[j] as int]
            ||| (keys[order[i] as int] == keys[order[j] as int] && order[i] < order[j])
        }
}

/// Where [`place`] puts a position in: behind the last position whose key is
/// not smaller.
proof fn lemma_place(keys: Seq<u64>, order: Seq<usize>, k: usize, p: int)
    requires
        0 <= p <= order.len(),
        forall|j: int| p <= j < order.len() ==> keys[#[trigger] order[j] as int] < keys[k as int],
        p == 0 || keys[order[p - 1] as int] >= keys[k as int],
    ensures
        place(keys, order, k) == order.insert(p, k),
    decreases order.len(),
{
    if order.len() == 0 {
        assert(order.insert(p, k) =~= seq![k]);
    } else if p == order.len() {
        assert(order.insert(p, k) =~= order.push(k));
    } else {
        assert(keys[order[order.len() - 1] as int] < keys[k as int]);
        lemma_place(keys, order.drop_last(), k, p);
        assert(order.drop_last().insert(p, k).push(order.last()) =~= order.insert(p, k));
    }
}

/// The place that [`place`] gives to a position.
proof fn lemma_place_exists(keys: Seq<u64>, order: Seq<usize>, k: usize) -> (p: int)
    ensures
        0 <= p <= order.len(),
        forall|j: int| p <= j < order.len() ==> keys[#[trigger] order[j] as int] < keys[k as int],
        p == 0 || keys[order[p - 1] as int] >= keys[k as int],
        place(keys, order, k) == order.insert(p, k),
    decreases order.len(),
{
    let p = if order.len() == 0 || keys[order.last() as int] >= keys[k as int] {
        order.len() as int
    } else {
        let q = lemma_place_exists(keys, order.drop_last(), k);
        assert forall|j: int| q <= j < order.len() implies keys[#[trigger] order[j] as int]
            < keys[k as int] by {
            if j < order.len() - 1 {
                assert(order.drop_last()[j] == order[j]);
            }
        }
        if q > 0 {
            assert(order.drop_last()[q - 1] == order[q - 1]);
        }
        q
    };
    lemma_place(keys, order, k, p);
    p
}

/// [`order_of_prefix`] is the descending order of the first `n` positions.
pub proof fn lemma_order_of_prefix(keys: Seq<u64>, n: nat)
    requires
        n <= keys.len(),
        n <= usize::MAX,
    ensures
        is_descending_order(keys, n, order_of_prefix(keys, n)),
    decreases n,
{
    if n > 0 {
        let k = (n - 1) as usize;
        let before = order_of_prefix(keys, (n - 1) as nat);
        lemma_order_of_prefix(keys, (n - 1) as nat);
        let p = lemma_place_exists(keys, before, k);
        let after = order_of_prefix(keys, n);
        assert(after == before.insert(p, k));
        assert forall|i: int| 0 <= i < after.len() implies (#[trigger] after[i]) < n by {
            if i < p {
                assert(after[i] == before[i]);
            } else if i > p {
                assert(after[i] == before[i - 1]);
            }
        }
        assert forall|m: usize| m < n implies #[trigger] after.contains(m) by {
            if m == k {
                assert(after[p] == m);
            } else {
                assert(before.contains(m));
                let i = choose|i: int| 0 <= i < before.len() && before[i] == m;
                if i < p {
                    assert(after[i] == m);
                } else {
                    assert(after[i + 1] == m);
                }
            }
        }
        assert forall|i: int, j: int| 0 <= i < j < after.len() implies {
            ||| keys[#[trigger] after[i] as int] > keys[#[trigger] after[j] as int]
            ||| (keys[after[i] as int] == keys[after[j] as int] && after[i] < after[j])
        } by {
            let a = if i < p {
                i
            } else {
                i - 1
            };
            let b = if j < p {
                j
            } else {
                j - 1
            };
            if i == p {
                assert(after[j] == before[b]);
                assert(keys[before[b] as int] < keys[k as int]);
            } else if j == p {
                assert(after[i] == before[a]);
                if a < p - 1 {
                    assert(keys[before[a] as int] > keys[before[p - 1] as int] || (keys[before[a] as int]
                        == keys[before[p - 1] as int] && before[a] < before[p - 1]));
                }
                assert(before[a] < k);
            } else {
                assert(after[i] == before[a]);
                assert(after[j] == before[b]);
            }
        }
    }
}

/// [`descending_order`] lists every position once, from the largest key to
/// the smallest, and positions with one key in ascending order.
pub proof fn lemma_descending_order(keys: Seq<u64>)
    requires
        keys.len() <= usize::MAX,
    ensures
        is_descending_order(keys, keys.len(), descending_order(keys)),
{
    lemma_order_of_prefix(keys, keys.len());
}

/// The positions of `keys` in descending order of their keys.
pub fn sort_descending(keys: &Vec<u64>) -> (order: Vec<usize>)
    ensures
        order@ == descending_order(keys@),
        is_descending_order(keys@, keys@.len(), order@),
{
    let mut order: Vec<usize> = Vec::new();
    let mut k: usize = 0;
    while k < keys.len()
        invariant
            k <= keys.len(),
            order@ == order_of_prefix(keys@, k as nat),
            is_descending_order(keys@, k as nat, order@),
        decreases keys.len() - k,
    {
        let mut p: usize = order.len();
        while p > 0 && keys[order[p - 1]] < keys[k]
            invariant
                p <= order.len() == k < keys.len(),
                forall|i: int| 0 <= i < order.len() ==> (#[trigger] order@[i]) < k,
                forall|j: int|
                    p <= j < order.len() ==> keys@[#[trigger] order@[j] as int] < keys@[k as int],
            decreases p,
        {
            p -= 1;
        }
        proof {
            lemma_place(keys@, order@, k, p as int);
            lemma_order_of_prefix(keys@, (k + 1) as nat);
        }
        order.insert(p, k);
        k += 1;
    }
    order
}

} // verus!
