//! What breaking ties and flagging conflicts owe.
use crate::ranking::{
    effective_time, hit_order, hit_times, in_order, law_ties_break_by_age_alone,
    partners_of, passed, passes, ScoredV,
};
use crate::store::StoreV;
use crate::text::listed;
use vstd::prelude::*;

verus! {

/// A memory ages from the latest of its creation, its last change and its last
/// verification, whichever of them there are.
pub proof fn law_memory_ages_from_its_latest_time(
    created_at: i64,
    updated_at: i64,
    verified_at: Option<i64>,
)
    requires
        created_at >= 0,
    ensures
        ({
            let t = effective_time(created_at, updated_at, verified_at);
            &&& t >= created_at && t >= updated_at
            &&& verified_at is Some ==> t >= verified_at->0
            &&& t == created_at || t == updated_at || verified_at == Some(t)
        }),
{
}

/// A hit is flagged with exactly the other hits that are about the same, as the
/// table of the pairs has it for the earlier of the two.
pub proof fn law_flagged_are_about_the_same(
    ids: Seq<Seq<char>>,
    close: Seq<Vec<bool>>,
    i: int,
    n: nat,
)
    requires
        n <= ids.len(),
    ensures
        forall|j: int|
            0 <= j < n && j != i && (if i < j {
                close[i]@[j]
            } else {
                close[j]@[i]
            }) ==> listed(partners_of(ids, close, i, n), #[trigger] ids[j]),
        forall|k: int|
            0 <= k < partners_of(ids, close, i, n).len() ==> exists|j: int|
                0 <= j < n && j != i && #[trigger] ids[j] == (#[trigger] partners_of(
                    ids,
                    close,
                    i,
                    n,
                )[k]) && (if i < j {
                    close[i]@[j]
                } else {
                    close[j]@[i]
                }),
    decreases n,
{
    if n > 0 {
        let m = (n - 1) as nat;
        law_flagged_are_about_the_same(ids, close, i, m);
        let init = partners_of(ids, close, i, m);
        let p = partners_of(ids, close, i, n);
        assert forall|j: int|
            0 <= j < n && j != i && (if i < j {
                close[i]@[j]
            } else {
                close[j]@[i]
            }) implies listed(p, #[trigger] ids[j]) by {
            if j < m {
                assert(listed(init, ids[j]));
                let k = choose|k: int| 0 <= k < init.len() && #[trigger] init[k] == ids[j];
                assert(p[k] == ids[j]);
            } else {
                assert(p[p.len() - 1] == ids[j]);
            }
        }
        assert forall|k: int| 0 <= k < p.len() implies exists|j: int|
            0 <= j < n && j != i && #[trigger] ids[j] == (#[trigger] p[k]) && (if i < j {
                close[i]@[j]
            } else {
                close[j]@[i]
            }) by {
            if k < init.len() {
                assert(p[k] == init[k]);
                let j = choose|j: int|
                    0 <= j < m && j != i && #[trigger] ids[j] == init[k] && (if i < j {
                        close[i]@[j]
                    } else {
                        close[j]@[i]
                    });
                assert(0 <= j < n && ids[j] == p[k]);
            } else {
                assert(ids[m as int] == p[k]);
            }
        }
    }
}

/// A hit stands before one that scored better only where the two scores are as
/// good as equal, the two are about the same, and it is the younger. Otherwise
/// the order by score stays.
pub proof fn law_better_score_stays_ahead(
    n: nat,
    ties: Seq<Vec<bool>>,
    close: Seq<Vec<bool>>,
    t_eff: Seq<i64>,
    i: int,
    j: int,
)
    requires
        n <= usize::MAX,
        0 <= i < j < n,
    ensures
        ({
            let r = passes(in_order(n), ties, close, t_eff, n);
            &&& r.len() == n && r[i] < n && r[j] < n && r[i] != r[j]
            &&& r[i] > r[j] ==> {
                &&& ties[r[j] as int]@[r[i] as int]
                &&& close[r[j] as int]@[r[i] as int]
                &&& t_eff[r[i] as int] > t_eff[r[j] as int]
            }
        }),
{
    law_ties_break_by_age_alone(n, ties, close, t_eff);
}

/// Whether every two hits tie and are about the same.
pub open spec fn all_alike(n: nat, ties: Seq<Vec<bool>>, close: Seq<Vec<bool>>) -> bool {
    forall|a: int, b: int|
        #![trigger ties[a]@[b]]
        0 <= a < n && 0 <= b < n ==> ties[a]@[b] && close[a]@[b]
}

/// Whether every place of an order is below a number.
spec fn below(p: Seq<usize>, n: nat) -> bool {
    forall|i: int| 0 <= i < p.len() ==> (#[trigger] p[i]) < n
}

/// Whether the places from `b` on go from the younger to the older, and none
/// before them is older.
spec fn settled(p: Seq<usize>, t: Seq<i64>, b: int) -> bool {
    forall|i: int, j: int|
        0 <= i < j < p.len() && b <= j ==> t[(#[trigger] p[i]) as int] >= t[(
        #[trigger] p[j]) as int]
}

/// One pass brings the oldest of the first places to the last of them.
proof fn lemma_pass(
    p: Seq<usize>,
    ties: Seq<Vec<bool>>,
    close: Seq<Vec<bool>>,
    t: Seq<i64>,
    k: int,
)
    requires
        0 <= k < p.len(),
        below(p, p.len()),
        all_alike(p.len(), ties, close),
    ensures
        ({
            let q = passed(p, ties, close, t, k);
            &&& q.len() == p.len()
            &&& below(q, p.len())
            &&& forall|i: int| k < i < p.len() ==> q[i] == p[i]
            &&& forall|i: int|
                0 <= i <= k ==> exists|j: int| 0 <= j <= k && #[trigger] p[j] == #[trigger] q[i]
            &&& forall|i: int| 0 <= i <= k ==> t[(#[trigger] q[i]) as int] >= t[q[k] as int]
        }),
    decreases k,
{
    let q = passed(p, ties, close, t, k);
    if k == 0 {
        assert(p[0] == q[0]);
    } else {
        lemma_pass(p, ties, close, t, k - 1);
        let r = passed(p, ties, close, t, k - 1);
        let a = r[k - 1];
        let b = r[k];
        assert(b == p[k]);
        assert(ties[a as int]@[b as int] && close[a as int]@[b as int]);
        assert forall|i: int| 0 <= i <= k implies exists|j: int|
            0 <= j <= k && #[trigger] p[j] == #[trigger] q[i] by {
            let at: int = if t[b as int] > t[a as int] {
                if i == k - 1 {
                    k
                } else if i == k {
                    k - 1
                } else {
                    i
                }
            } else {
                i
            };
            assert(q[i] == r[at]);
            if at < k {
                let j = choose|j: int| 0 <= j <= k - 1 && #[trigger] p[j] == r[at];
                assert(p[j] == q[i]);
            } else {
                assert(p[k] == q[i]);
            }
        }
        assert forall|i: int| 0 <= i <= k implies t[(#[trigger] q[i]) as int] >= t[q[k] as int] by {
            assert(t[a as int] <= t[r[k - 1] as int]);
            if i < k - 1 {
                assert(q[i] == r[i]);
            }
        }
    }
}

/// A pass leaves what is settled and settles one place more.
proof fn lemma_pass_settles(
    p: Seq<usize>,
    ties: Seq<Vec<bool>>,
    close: Seq<Vec<bool>>,
    t: Seq<i64>,
    b: int,
    k: int,
)
    requires
        1 <= b <= p.len(),
        b - 1 <= k < p.len(),
        below(p, p.len()),
        all_alike(p.len(), ties, close),
        settled(p, t, b),
    ensures
        ({
            let q = passed(p, ties, close, t, k);
            q.len() == p.len() && below(q, p.len()) && settled(q, t, b - 1)
        }),
        passed(p, ties, close, t, k) == passed(p, ties, close, t, b - 1),
    decreases k,
{
    let q = passed(p, ties, close, t, k);
    if k == b - 1 {
        lemma_pass(p, ties, close, t, k);
        assert forall|i: int, j: int| 0 <= i < j < q.len() && b - 1 <= j implies t[(
        #[trigger] q[i]) as int] >= t[(#[trigger] q[j]) as int] by {
            if j >= b {
                assert(q[j] == p[j]);
                if i >= b {
                    assert(q[i] == p[i]);
                } else {
                    let x = choose|x: int| 0 <= x <= k && #[trigger] p[x] == q[i];
                    assert(t[p[x] as int] >= t[p[j] as int]);
                }
            }
        }
    } else {
        lemma_pass_settles(p, ties, close, t, b, k - 1);
        let r = passed(p, ties, close, t, k - 1);
        assert(t[r[k - 1] as int] >= t[r[k] as int]);
    }
}

/// After some passes as many places are settled.
proof fn lemma_passes_settle(
    n: nat,
    ties: Seq<Vec<bool>>,
    close: Seq<Vec<bool>>,
    t: Seq<i64>,
    rounds: nat,
)
    requires
        n <= usize::MAX,
        rounds <= n,
        all_alike(n, ties, close),
    ensures
        ({
            let q = passes(in_order(n), ties, close, t, rounds);
            q.len() == n && below(q, n) && settled(q, t, n - rounds)
        }),
    decreases rounds,
{
    if rounds > 0 {
        lemma_passes_settle(n, ties, close, t, (rounds - 1) as nat);
        let p = passes(in_order(n), ties, close, t, (rounds - 1) as nat);
        lemma_pass_settles(p, ties, close, t, n - rounds + 1, n - 1);
    }
}

/// Hits whose scores are as good as equal and that are about the same come
/// youngest first.
pub proof fn law_alike_come_youngest_first(
    n: nat,
    ties: Seq<Vec<bool>>,
    close: Seq<Vec<bool>>,
    t_eff: Seq<i64>,
)
    requires
        n <= usize::MAX,
        all_alike(n, ties, close),
    ensures
        ({
            let r = passes(in_order(n), ties, close, t_eff, n);
            &&& r.len() == n
            &&& forall|i: int, j: int|
                0 <= i < j < n ==> t_eff[(#[trigger] r[i]) as int] >= t_eff[(#[trigger] r[j]) as int]
        }),
{
    lemma_passes_settle(n, ties, close, t_eff, n);
}

/// A recall that credits orders what it picked by these rules, by the memories'
/// own times; one that does not returns it as picked.
pub proof fn law_hits_are_ordered_by_age(
    s: StoreV,
    v: Seq<ScoredV>,
    picked: Seq<usize>,
    ties: Seq<Vec<bool>>,
    close: Seq<Vec<bool>>,
    i: int,
    j: int,
)
    requires
        picked.len() <= usize::MAX,
        0 <= i < j < picked.len(),
    ensures
        hit_order(s, v, picked, ties, close, false) == picked,
        all_alike(picked.len(), ties, close) ==> {
            let r = hit_order(s, v, picked, ties, close, true);
            let a = s.memories[v[r[i] as int].at];
            let b = s.memories[v[r[j] as int].at];
            effective_time(a.created_at, a.updated_at, a.verified_at) >= effective_time(
                b.created_at,
                b.updated_at,
                b.verified_at,
            )
        },
{
    let t = hit_times(s, v, picked);
    if all_alike(picked.len(), ties, close) {
        law_alike_come_youngest_first(picked.len(), ties, close, t);
        law_better_score_stays_ahead(picked.len(), ties, close, t, i, j);
        let p = passes(in_order(picked.len()), ties, close, t, picked.len());
        assert(t[p[i] as int] >= t[p[j] as int]);
    }
}

} // verus!
