//! Ordering by keys, largest first, with equal keys in the order given.
use vstd::prelude::*;

verus! {

/// Whether key `a` comes before key `b`: it is larger, by the first part and
/// then by the second.
pub open spec fn larger(a: (i64, i64), b: (i64, i64)) -> bool {
    a.0 > b.0 || (a.0 == b.0 && a.1 > b.1)
}

/// Whether position `x` comes before position `y`: its key is larger, or the
/// keys are equal and it stands first.
pub open spec fn ahead(keys: Seq<(i64, i64)>, x: int, y: int) -> bool {
    larger(keys[x], keys[y]) || (keys[x] == keys[y] && x < y)
}

/// Whether `p` lists every position of `keys` once, each before those that it
/// is ahead of.
pub open spec fn is_order(keys: Seq<(i64, i64)>, p: Seq<usize>) -> bool {
    &&& p.len() == keys.len()
    &&& forall|i: int| 0 <= i < p.len() ==> (#[trigger] p[i]) < keys.len()
    &&& forall|i: int, j: int|
        0 <= i < j < p.len() ==> ahead(keys, #[trigger] p[i] as int, #[trigger] p[j] as int)
    &&& forall|x: int| 0 <= x < keys.len() ==> #[trigger] placed(p, x)
}

/// Whether a position is listed.
pub open spec fn placed(p: Seq<usize>, x: int) -> bool {
    exists|i: int| 0 <= i < p.len() && #[trigger] p[i] == x
}

/// Whether one position is ahead of another.
fn is_ahead(keys: &Vec<(i64, i64)>, x: usize, y: usize) -> (r: bool)
    requires
        x < keys@.len(),
        y < keys@.len(),
    ensures
        r == ahead(keys@, x as int, y as int),
{
    let a = keys[x];
    let b = keys[y];
    a.0 > b.0 || (a.0 == b.0 && a.1 > b.1) || (a.0 == b.0 && a.1 == b.1 && x < y)
}

/// The order of the positions of some keys.
pub open spec fn ordered(keys: Seq<(i64, i64)>) -> Seq<usize> {
    choose|p: Seq<usize>| is_order(keys, p)
}

/// Orders positions by their keys.
pub fn order_desc(keys: &Vec<(i64, i64)>) -> (r: Vec<usize>)
    ensures
        is_order(keys@, r@),
        r@ == ordered(keys@),
{
    let mut out: Vec<usize> = Vec::new();
    let mut n: usize = 0;
    while n < keys.len()
        invariant
            n <= keys@.len(),
            out@.len() == n,
            forall|i: int| 0 <= i < n ==> (#[trigger] out@[i]) < n,
            forall|i: int, j: int|
                0 <= i < j < n ==> ahead(
                    keys@,
                    #[trigger] out@[i] as int,
                    #[trigger] out@[j] as int,
                ),
            forall|x: int| 0 <= x < n ==> #[trigger] placed(out@, x),
        decreases keys@.len() - n,
    {
        // Find where position `n` goes: behind all that are ahead of it.
        let mut at: usize = 0;
        while at < out.len() && is_ahead(keys, out[at], n)
            invariant
                at <= out@.len(),
                out@.len() == n,
                n < keys@.len(),
                forall|i: int| 0 <= i < n ==> (#[trigger] out@[i]) < n,
                forall|i: int|
                    0 <= i < at ==> ahead(keys@, #[trigger] out@[i] as int, n as int),
            decreases out@.len() - at,
        {
            at = at + 1;
        }
        let ghost before = out@;
        out.insert(at, n);
        proof {
            let after = out@;
            assert forall|i: int| 0 <= i < n + 1 implies (#[trigger] after[i]) < n + 1 by {
                if i < at {
                    assert(after[i] == before[i]);
                } else if i > at {
                    assert(after[i] == before[i - 1]);
                }
            }
            assert forall|i: int, j: int| 0 <= i < j < n + 1 implies ahead(
                keys@,
                #[trigger] after[i] as int,
                #[trigger] after[j] as int,
            ) by {
                if j < at {
                    assert(after[i] == before[i] && after[j] == before[j]);
                } else if j == at {
                    assert(after[i] == before[i]);
                } else if i < at {
                    assert(after[i] == before[i] && after[j] == before[j - 1]);
                } else if i == at {
                    assert(after[j] == before[j - 1]);
                    if j - 1 > at {
                        assert(ahead(keys@, before[at as int] as int, before[j - 1] as int));
                    }
                } else {
                    assert(after[i] == before[i - 1] && after[j] == before[j - 1]);
                }
            }
            assert forall|x: int| 0 <= x < n + 1 implies #[trigger] placed(after, x) by {
                if x < n {
                    assert(placed(before, x));
                    let i = choose|i: int| 0 <= i < before.len() && #[trigger] before[i] == x;
                    if i < at {
                        assert(after[i] == x);
                    } else {
                        assert(after[i + 1] == x);
                    }
                } else {
                    assert(after[at as int] == x);
                }
            }
        }
        n = n + 1;
    }
    proof {
        assert(is_order(keys@, out@));
        law_order_is_unique(keys@, out@, ordered(keys@));
    }
    out
}

/// There is an order for as many keys as a list can have.
pub proof fn lemma_order_exists(keys: Seq<(i64, i64)>)
    requires
        keys.len() <= usize::MAX,
    ensures
        is_order(keys, ordered(keys)),
{
    let p = lemma_prefix_order(keys, keys.len() as int);
    assert(is_order(keys, p));
}

/// How many of the first `k` listed positions come before all others that are
/// not ahead of `x`.
proof fn lemma_slot(keys: Seq<(i64, i64)>, q: Seq<usize>, x: int, k: int) -> (at: int)
    requires
        0 <= k <= q.len(),
        forall|i: int| 0 <= i < k ==> ahead(keys, #[trigger] q[i] as int, x),
    ensures
        k <= at <= q.len(),
        forall|i: int| 0 <= i < at ==> ahead(keys, #[trigger] q[i] as int, x),
        at < q.len() ==> !ahead(keys, q[at] as int, x),
    decreases q.len() - k,
{
    if k < q.len() && ahead(keys, q[k] as int, x) {
        lemma_slot(keys, q, x, k + 1)
    } else {
        k
    }
}

/// The order of the first `n` positions.
proof fn lemma_prefix_order(keys: Seq<(i64, i64)>, n: int) -> (p: Seq<usize>)
    requires
        0 <= n <= keys.len(),
        n <= usize::MAX,
    ensures
        p.len() == n,
        forall|i: int| 0 <= i < n ==> (#[trigger] p[i]) < n,
        forall|i: int, j: int|
            0 <= i < j < n ==> ahead(keys, #[trigger] p[i] as int, #[trigger] p[j] as int),
        forall|x: int| 0 <= x < n ==> #[trigger] placed(p, x),
    decreases n,
{
    if n == 0 {
        Seq::empty()
    } else {
        let x = n - 1;
        let q = lemma_prefix_order(keys, x);
        let at = lemma_slot(keys, q, x, 0);
        let p = q.insert(at, x as usize);
        assert forall|i: int| 0 <= i < n implies (#[trigger] p[i]) < n by {
            if i < at {
                assert(p[i] == q[i]);
            } else if i > at {
                assert(p[i] == q[i - 1]);
            }
        }
        assert forall|i: int, j: int| 0 <= i < j < n implies ahead(
            keys,
            #[trigger] p[i] as int,
            #[trigger] p[j] as int,
        ) by {
            if j < at {
                assert(p[i] == q[i] && p[j] == q[j]);
            } else if j == at {
                assert(p[i] == q[i]);
            } else if i < at {
                assert(p[i] == q[i] && p[j] == q[j - 1]);
            } else if i == at {
                assert(p[j] == q[j - 1]);
                if j - 1 > at {
                    assert(ahead(keys, q[at] as int, q[j - 1] as int));
                }
            } else {
                assert(p[i] == q[i - 1] && p[j] == q[j - 1]);
            }
        }
        assert forall|y: int| 0 <= y < n implies #[trigger] placed(p, y) by {
            if y < x {
                assert(placed(q, y));
                let i = choose|i: int| 0 <= i < q.len() && #[trigger] q[i] == y;
                if i < at {
                    assert(p[i] == y);
                } else {
                    assert(p[i + 1] == y);
                }
            } else {
                assert(p[at] == y);
            }
        }
        p
    }
}

/// There is only one order.
pub proof fn law_order_is_unique(keys: Seq<(i64, i64)>, p: Seq<usize>, q: Seq<usize>)
    requires
        is_order(keys, p),
        is_order(keys, q),
    ensures
        p == q,
{
    assert forall|i: int| 0 <= i < p.len() implies p[i] == q[i] by {
        lemma_same_at(keys, p, q, i);
    }
    assert(p =~= q);
}

/// Two orders agree position by position.
proof fn lemma_same_at(keys: Seq<(i64, i64)>, p: Seq<usize>, q: Seq<usize>, i: int)
    requires
        is_order(keys, p),
        is_order(keys, q),
        0 <= i < p.len(),
    ensures
        p[i] == q[i],
    decreases i,
{
    assert forall|j: int| 0 <= j < i implies p[j] == q[j] by {
        lemma_same_at(keys, p, q, j);
    }
    if p[i] != q[i] {
        assert(placed(q, p[i] as int));
        let a = choose|a: int| 0 <= a < q.len() && #[trigger] q[a] == p[i];
        assert(placed(p, q[i] as int));
        let b = choose|b: int| 0 <= b < p.len() && #[trigger] p[b] == q[i];
        if a < i {
            assert(p[a] == q[a]);
            assert(ahead(keys, p[a] as int, p[i] as int));
        }
        if b < i {
            assert(p[b] == q[b]);
            assert(ahead(keys, q[b] as int, q[i] as int));
        }
        assert(ahead(keys, q[i] as int, q[a] as int));
        assert(ahead(keys, p[i] as int, p[b] as int));
    }
}

/// How many of `len` things remain where at most `limit` are kept.
pub open spec fn at_most(limit: nat, len: nat) -> nat {
    if limit < len {
        limit
    } else {
        len
    }
}

/// The things whose keys are the largest, at most `limit` of them.
pub fn top(found: &Vec<usize>, keys: &Vec<(i64, i64)>, limit: usize) -> (r: Vec<usize>)
    requires
        found@.len() == keys@.len(),
    ensures
        is_order(keys@, ordered(keys@)),
        r@.len() == at_most(limit as nat, keys@.len()),
        forall|i: int|
            0 <= i < r@.len() ==> ordered(keys@)[i] < found@.len() && #[trigger] r@[i]
                == found@[ordered(keys@)[i] as int],
{
    let order = order_desc(keys);
    let n: usize = if order.len() < limit {
        order.len()
    } else {
        limit
    };
    let mut out: Vec<usize> = Vec::new();
    let mut k: usize = 0;
    while k < n
        invariant
            k <= n <= order@.len(),
            order@ == ordered(keys@),
            is_order(keys@, order@),
            keys@.len() == found@.len(),
            out@.len() == k,
            forall|x: int|
                0 <= x < k ==> order@[x] < found@.len() && #[trigger] out@[x]
                    == found@[order@[x] as int],
        decreases n - k,
    {
        let p = order[k];
        assert(p < keys@.len());
        out.push(found[p]);
        k = k + 1;
    }
    out
}

} // verus!
