//! What the records of runs owe: tokens add up, every run that a report covers is
//! counted in its group, and listings come in the order promised.
use crate::context_laws::law_order_is_largest_first;
use crate::metrics::{
    cost_keys, covered, group_at, grouped, ok_percent, recent_rows, run_rows, rows_shown,
    tokens_used, uses_of, CompletionV, GroupV, ReportV, UsageV,
};
use crate::sort::ordered;
use crate::store::Rank;
use vstd::prelude::*;

verus! {

/// The tokens so far: none count as zero.
pub open spec fn so_far(sums: Option<(i64, i64)>) -> (i64, i64) {
    match sums {
        Some(s) => s,
        None => (0i64, 0i64),
    }
}

/// One more use adds what it read and wrote to its own run and what came from the
/// cache to the other sum, where the sums fit, and nothing to any other run; a
/// run without uses has no sums.
pub proof fn law_one_more_use_adds_up(us: Seq<UsageV>, u: UsageV, id: Seq<char>)
    ensures
        tokens_used(Seq::empty(), id) == Ok::<Option<(i64, i64)>, ()>(None),
        u.completion_id != id ==> tokens_used(us.push(u), id) == tokens_used(us, id),
        tokens_used(us, id) is Err ==> tokens_used(us.push(u), id) is Err,
        u.completion_id == id && tokens_used(us, id) is Ok ==> ({
            let (t, c) = so_far(tokens_used(us, id)->Ok_0);
            let r = tokens_used(us.push(u), id);
            &&& r is Ok ==> r->Ok_0 is Some && so_far(r->Ok_0) == (
                (t + u.input_tokens + u.output_tokens) as i64,
                (c + u.cache_read) as i64,
            ) && i64::MIN <= t + u.input_tokens + u.output_tokens <= i64::MAX && i64::MIN <= c
                + u.cache_read <= i64::MAX
            &&& t + u.input_tokens + u.output_tokens <= i64::MAX && c + u.cache_read <= i64::MAX
                && u.input_tokens + u.output_tokens <= i64::MAX && 0 <= t && 0 <= c && 0
                <= u.input_tokens && 0 <= u.output_tokens && 0 <= u.cache_read ==> r is Ok
        }),
{
    assert(us.push(u).drop_last() =~= us);
    assert(us.push(u).last() == u);
}

/// A report covers the runs since its time, of the model and of the type of task
/// that it asks for.
pub proof fn law_report_covers_what_it_asks_for(c: CompletionV, q: ReportV)
    ensures
        covered(c, q) <==> c.created_at >= q.since && (q.model is None || q.model == Some(c.model))
            && (q.task_type is None || q.task_type == Some(c.task_type)),
{
}

/// The group found is of the run; where none is found, none is.
proof fn lemma_found(gs: Seq<GroupV>, c: CompletionV)
    ensures
        match group_at(gs, c) {
            Some(i) => 0 <= i < gs.len() && same_kind(gs[i], c),
            None => forall|i: int| 0 <= i < gs.len() ==> !same_kind(#[trigger] gs[i], c),
        },
    decreases gs.len(),
{
    if gs.len() > 0 {
        let init = gs.drop_last();
        lemma_found(init, c);
        if group_at(gs, c) is None {
            assert forall|i: int| 0 <= i < gs.len() implies !same_kind(#[trigger] gs[i], c) by {
                if i < init.len() {
                    assert(init[i] == gs[i]);
                }
            }
        }
    }
}

/// Whether a group is that of a run: by model, provider and type of task.
pub open spec fn same_kind(g: GroupV, c: CompletionV) -> bool {
    g.model == c.model && g.provider == c.provider && g.task_type == c.task_type
}

/// How many of the runs at some positions were completed.
pub open spec fn completed_at(cs: Seq<CompletionV>, at: Seq<int>) -> nat
    decreases at.len(),
{
    if at.len() == 0 {
        0
    } else {
        completed_at(cs, at.drop_last()) + (if cs[at.last()].status == "completed"@ {
            1nat
        } else {
            0nat
        })
    }
}

/// Counting completed runs looks only at the runs that are there.
proof fn lemma_completed_same(a: Seq<CompletionV>, b: Seq<CompletionV>, at: Seq<int>)
    requires
        forall|k: int| 0 <= k < at.len() ==> a[#[trigger] at[k]] == b[at[k]],
    ensures
        completed_at(a, at) == completed_at(b, at),
    decreases at.len(),
{
    if at.len() > 0 {
        let init = at.drop_last();
        assert forall|k: int| 0 <= k < init.len() implies a[#[trigger] init[k]] == b[init[k]] by {
            assert(init[k] == at[k]);
        }
        lemma_completed_same(a, b, init);
        assert(a[at[at.len() - 1]] == b[at[at.len() - 1]]);
    }
}

/// Every run that a report covers stands in the group of its model, provider and
/// type of task, no two groups are of one kind, and a group's successes are the
/// completed ones among its runs.
pub proof fn law_every_run_is_in_its_group(cs: Seq<CompletionV>, q: ReportV)
    ensures
        forall|x: int|
            0 <= x < cs.len() && covered(#[trigger] cs[x], q) ==> exists|i: int|
                0 <= i < grouped(cs, q).len() && same_kind(#[trigger] grouped(cs, q)[i], cs[x])
                    && grouped(cs, q)[i].at.contains(x),
        forall|i: int, j: int|
            0 <= i < j < grouped(cs, q).len() ==> {
                let a = #[trigger] grouped(cs, q)[i];
                let b = #[trigger] grouped(cs, q)[j];
                a.model != b.model || a.provider != b.provider || a.task_type != b.task_type
            },
        forall|i: int|
            0 <= i < grouped(cs, q).len() ==> (#[trigger] grouped(cs, q)[i]).successes
                == completed_at(cs, grouped(cs, q)[i].at),
    decreases cs.len(),
{
    if cs.len() > 0 {
        let prev = cs.drop_last();
        let c = cs.last();
        let at = cs.len() - 1;
        law_every_run_is_in_its_group(prev, q);
        crate::metrics::law_groups_hold_every_run(prev, q);
        let gs = grouped(prev, q);
        let hs = grouped(cs, q);
        lemma_found(gs, c);
        assert forall|i: int| 0 <= i < gs.len() implies completed_at(
            cs,
            (#[trigger] gs[i]).at,
        ) == completed_at(prev, gs[i].at) by {
            assert(crate::metrics::sound_group(gs[i], prev, q));
            assert forall|k: int| 0 <= k < gs[i].at.len() implies cs[#[trigger] gs[i].at[k]]
                == prev[gs[i].at[k]] by {}
            lemma_completed_same(cs, prev, gs[i].at);
        }
        assert forall|x: int| 0 <= x < cs.len() && covered(#[trigger] cs[x], q) implies exists|
            i: int,
        |
            0 <= i < hs.len() && same_kind(#[trigger] hs[i], cs[x]) && hs[i].at.contains(x) by {
            if x < prev.len() {
                assert(prev[x] == cs[x]);
                let i = choose|i: int|
                    0 <= i < gs.len() && same_kind(#[trigger] gs[i], prev[x]) && gs[i].at.contains(
                        x,
                    );
                let k = choose|k: int| 0 <= k < gs[i].at.len() && gs[i].at[k] == x;
                assert(hs[i].at[k] == x);
                assert(same_kind(hs[i], cs[x]));
            } else {
                match group_at(gs, c) {
                    Some(i) => {
                        assert(hs[i].at[hs[i].at.len() - 1] == x);
                        assert(same_kind(hs[i], cs[x]));
                    },
                    None => {
                        let i = gs.len() as int;
                        assert(hs[i].at[0] == x);
                        assert(same_kind(hs[i], cs[x]));
                    },
                }
            }
        }
        assert forall|i: int, j: int| 0 <= i < j < hs.len() implies {
            let a = #[trigger] hs[i];
            let b = #[trigger] hs[j];
            a.model != b.model || a.provider != b.provider || a.task_type != b.task_type
        } by {
            if j < gs.len() {
                assert(gs[i].model == hs[i].model && gs[i].provider == hs[i].provider
                    && gs[i].task_type == hs[i].task_type);
                assert(gs[j].model == hs[j].model && gs[j].provider == hs[j].provider
                    && gs[j].task_type == hs[j].task_type);
            } else {
                assert(!same_kind(gs[i], c));
                assert(hs[i] == gs[i]);
            }
        }
        assert forall|i: int| 0 <= i < hs.len() implies (#[trigger] hs[i]).successes
            == completed_at(cs, hs[i].at) by {
            if i < gs.len() && hs[i] == gs[i] {
                assert(gs[i].successes == completed_at(prev, gs[i].at));
            } else if i < gs.len() {
                assert(hs[i].at.drop_last() =~= gs[i].at);
                assert(gs[i].successes == completed_at(prev, gs[i].at));
                assert(hs[i].at.last() == at);
            } else {
                assert(hs[i].at =~= seq![at]);
                assert(hs[i].at.drop_last() =~= Seq::<int>::empty());
                assert(completed_at(cs, hs[i].at.drop_last()) == 0);
            }
        }
    }
}

/// The share of successes is the whole percents of it: no more than the share and
/// less than one percent below it.
pub proof fn law_share_is_rounded_down(g: GroupV)
    requires
        g.at.len() > 0,
    ensures
        ok_percent(g) * g.at.len() <= g.successes * 100,
        g.successes * 100 < (ok_percent(g) + 1) * g.at.len(),
        g.successes == g.at.len() ==> ok_percent(g) == 100,
        g.successes == 0 ==> ok_percent(g) == 0,
{
    let a = (g.successes * 100) as int;
    let n = g.at.len() as int;
    vstd::arithmetic::div_mod::lemma_fundamental_div_mod(a, n);
    assert(0 <= a % n < n) by (nonlinear_arith)
        requires
            n > 0,
    ;
    let k = a / n;
    assert(ok_percent(g) == k);
    assert(k * n == n * k) by (nonlinear_arith);
    assert((k + 1) * n == k * n + n) by (nonlinear_arith);
    if g.successes == g.at.len() {
        assert(a == 100 * n);
        assert(a / n == 100) by (nonlinear_arith)
            requires
                a == 100 * n,
                n > 0,
        ;
    }
}

/// Groups are reported by cost, the largest first, and those without a known cost
/// behind all others.
pub proof fn law_costly_groups_come_first(costs: Seq<Option<Rank>>, i: int, j: int)
    requires
        costs.len() <= usize::MAX,
        0 <= i < j < costs.len(),
    ensures
        ({
            let a = costs[ordered(cost_keys(costs))[i] as int];
            let b = costs[ordered(cost_keys(costs))[j] as int];
            match (a, b) {
                (Some(x), Some(y)) => x.key >= y.key,
                (Some(_), None) => true,
                (None, b) => b is None,
            }
        }),
{
    let keys = cost_keys(costs);
    law_order_is_largest_first(keys);
    let p = ordered(keys);
    assert(p[i] < keys.len() && p[j] < keys.len());
    assert(keys[p[i] as int] == (match costs[p[i] as int] {
        Some(r) => (1i64, r.key),
        None => (0i64, 0i64),
    }));
    assert(keys[p[j] as int] == (match costs[p[j] as int] {
        Some(r) => (1i64, r.key),
        None => (0i64, 0i64),
    }));
}

/// The uses of a run are its own, all of them and in order.
proof fn lemma_uses(us: Seq<UsageV>, id: Seq<char>)
    ensures
        forall|k: int|
            0 <= k < uses_of(us, id).len() ==> 0 <= (#[trigger] uses_of(us, id)[k]) < us.len()
                && us[uses_of(us, id)[k]].completion_id == id,
        forall|x: int|
            0 <= x < us.len() && (#[trigger] us[x]).completion_id == id ==> uses_of(
                us,
                id,
            ).contains(x),
    decreases us.len(),
{
    if us.len() > 0 {
        let prev = us.drop_last();
        lemma_uses(prev, id);
        let init = uses_of(prev, id);
        let r = uses_of(us, id);
        assert forall|k: int| 0 <= k < r.len() implies 0 <= (#[trigger] r[k]) < us.len()
            && us[r[k]].completion_id == id by {
            if k < init.len() {
                assert(r[k] == init[k]);
                assert(prev[init[k]] == us[init[k]]);
            }
        }
        assert forall|x: int|
            0 <= x < us.len() && (#[trigger] us[x]).completion_id == id implies r.contains(x) by {
            if x < prev.len() {
                assert(prev[x] == us[x]);
                let k = choose|k: int| 0 <= k < init.len() && init[k] == x;
                assert(r[k] == x);
            } else {
                assert(r[r.len() - 1] == x);
            }
        }
    }
}

/// The rows of runs are those of the runs since a time, each run with a row for
/// each of its uses or one without any.
pub proof fn law_recent_runs_are_listed(cs: Seq<CompletionV>, us: Seq<UsageV>, since: i64)
    ensures
        forall|k: int|
            0 <= k < recent_rows(cs, us, since).len() ==> {
                let r = #[trigger] recent_rows(cs, us, since)[k];
                &&& 0 <= r.0 < cs.len() && cs[r.0].created_at >= since
                &&& r.1 is Some ==> 0 <= r.1->0 < us.len() && us[r.1->0].completion_id
                    == cs[r.0].id
            },
        forall|x: int|
            0 <= x < cs.len() && (#[trigger] cs[x]).created_at >= since ==> exists|k: int|
                0 <= k < recent_rows(cs, us, since).len() && (#[trigger] recent_rows(
                    cs,
                    us,
                    since,
                )[k]).0 == x,
        forall|x: int, u: int|
            0 <= x < cs.len() && (#[trigger] cs[x]).created_at >= since && 0 <= u < us.len() && (
            #[trigger] us[u]).completion_id == cs[x].id ==> recent_rows(cs, us, since).contains(
                (x, Some(u)),
            ),
    decreases cs.len(),
{
    if cs.len() > 0 {
        let prev = cs.drop_last();
        law_recent_runs_are_listed(prev, us, since);
        let init = recent_rows(prev, us, since);
        let r = recent_rows(cs, us, since);
        let at = cs.len() - 1;
        let more = run_rows(at, us, cs.last().id);
        let uses = uses_of(us, cs.last().id);
        lemma_uses(us, cs.last().id);
        assert forall|k: int| 0 <= k < r.len() implies {
            let x = #[trigger] r[k];
            &&& 0 <= x.0 < cs.len() && cs[x.0].created_at >= since
            &&& x.1 is Some ==> 0 <= x.1->0 < us.len() && us[x.1->0].completion_id == cs[x.0].id
        } by {
            if k < init.len() {
                assert(r[k] == init[k]);
                assert(prev[init[k].0] == cs[init[k].0]);
            } else {
                assert(r[k] == more[k - init.len()]);
            }
        }
        assert forall|x: int| 0 <= x < cs.len() && (#[trigger] cs[x]).created_at >= since implies
            exists|k: int| 0 <= k < r.len() && (#[trigger] r[k]).0 == x by {
            if x < prev.len() {
                assert(prev[x] == cs[x]);
                let k = choose|k: int| 0 <= k < init.len() && (#[trigger] init[k]).0 == x;
                assert(r[k].0 == x);
            } else {
                assert(r[init.len() as int] == more[0]);
                assert(r[init.len() as int].0 == x);
            }
        }
        assert forall|x: int, u: int|
            0 <= x < cs.len() && (#[trigger] cs[x]).created_at >= since && 0 <= u < us.len() && (
            #[trigger] us[u]).completion_id == cs[x].id implies r.contains((x, Some(u))) by {
            if x < prev.len() {
                assert(prev[x] == cs[x]);
                assert(init.contains((x, Some(u))));
                let k = choose|k: int| 0 <= k < init.len() && init[k] == (x, Some(u));
                assert(r[k] == (x, Some(u)));
            } else {
                assert(uses.contains(u));
                let k = choose|k: int| 0 <= k < uses.len() && uses[k] == u;
                assert(more[k] == (at, Some(u)));
                assert(r[init.len() + k] == (x, Some(u)));
            }
        }
    }
}

/// A listing of runs comes the newest first and is cut only behind its limit.
pub proof fn law_run_listing_is_newest_first(
    cs: Seq<CompletionV>,
    us: Seq<UsageV>,
    since: i64,
    limit: nat,
)
    requires
        recent_rows(cs, us, since).len() <= usize::MAX,
    ensures
        ({
            let r = rows_shown(cs, us, since, limit);
            let all = recent_rows(cs, us, since);
            &&& r.len() == (if limit < all.len() {
                limit
            } else {
                all.len()
            })
            &&& forall|i: int| 0 <= i < r.len() ==> all.contains(#[trigger] r[i])
            &&& forall|i: int, j: int|
                0 <= i < j < r.len() ==> cs[(#[trigger] r[i]).0].created_at >= cs[(
                #[trigger] r[j]).0].created_at
            &&& forall|x: int, i: int|
                0 <= x < all.len() && 0 <= i < r.len() && !r.contains(#[trigger] all[x]) ==> cs[(
                #[trigger] r[i]).0].created_at >= cs[all[x].0].created_at
        }),
{
    let all = recent_rows(cs, us, since);
    let keys = all.map_values(|r: (int, Option<int>)| (cs[r.0].created_at, 0i64));
    law_order_is_largest_first(keys);
    let p = ordered(keys);
    let r = rows_shown(cs, us, since, limit);
    assert forall|i: int| 0 <= i < r.len() implies p[i] < all.len() && #[trigger] r[i]
        == all[p[i] as int] && keys[p[i] as int] == (cs[r[i].0].created_at, 0i64) by {
        assert(p[i] < keys.len());
    }
    assert forall|i: int| 0 <= i < r.len() implies all.contains(#[trigger] r[i]) by {
        assert(all[p[i] as int] == r[i]);
    }
    assert forall|i: int, j: int| 0 <= i < j < r.len() implies cs[(#[trigger] r[i]).0].created_at
        >= cs[(#[trigger] r[j]).0].created_at by {
        assert(p[i] < keys.len() && p[j] < keys.len());
    }
    assert forall|x: int, i: int|
        0 <= x < all.len() && 0 <= i < r.len() && !r.contains(#[trigger] all[x]) implies cs[(
    #[trigger] r[i]).0].created_at >= cs[all[x].0].created_at by {
        assert(p.contains(x as usize));
        let j = choose|j: int| 0 <= j < p.len() && p[j] == x as usize;
        if j < r.len() {
            assert(r[j] == all[x]);
        }
        assert(p[i] < keys.len());
        assert(keys[p[j] as int] == (cs[all[x].0].created_at, 0i64));
    }
}

} // verus!
