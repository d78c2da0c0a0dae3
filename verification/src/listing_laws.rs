//! What every listing owes: it shows what is asked for and nothing else, each
//! entry once, in the order promised, and leaves nothing out for something that
//! comes behind it.
use crate::context_laws::law_order_is_largest_first;
use crate::history::{
    changes_among, conflict_keys, conflict_positions, conflicts_shown, entries_of, entries_shown,
    entry_keys, numbered_event, value_or_null, wanted_event,
};
use crate::json::JsonV;
use crate::kernel::{
    active_positions, export_key, export_keys, exported, log_keys, newest, types_before,
    ContextLogV,
};
use crate::kx::KxFiltersV;
use crate::kx_query::{browsed, listing};
use crate::ranking::within;
use crate::recall::{
    asked_about, entry_key, entry_key_list, entry_positions, log_entries, to_embed, topic_of,
    topics_asked, LogView, RecallLogV,
};
use crate::rows::MemoryV;
use crate::sort::{at_most, ordered};
use crate::sql::ScopeV;
use crate::store::{EventV, Rank, StoreV};
use crate::tasks::{
    asked_positions, new_task, task_at, task_changed, task_keys, tasks_shown, CreateArgs, TaskQueryV,
    TaskV, UpdateArgs,
};
use crate::text::{listed, opt_text};
use vstd::prelude::*;

verus! {

/// The numbers below `n` that pass a test, in order.
pub open spec fn passing(n: nat, f: spec_fn(int) -> bool) -> Seq<int>
    decreases n,
{
    if n == 0 {
        Seq::empty()
    } else if f(n - 1) {
        passing((n - 1) as nat, f).push(n - 1)
    } else {
        passing((n - 1) as nat, f)
    }
}

/// Of the numbers below `n`, exactly those that pass are there, each once.
proof fn lemma_passing(n: nat, f: spec_fn(int) -> bool)
    ensures
        passing(n, f).len() <= n,
        forall|k: int|
            0 <= k < passing(n, f).len() ==> 0 <= (#[trigger] passing(n, f)[k]) < n && f(
                passing(n, f)[k],
            ),
        forall|x: int| 0 <= x < n && #[trigger] f(x) ==> passing(n, f).contains(x),
        forall|j: int, k: int|
            0 <= j < k < passing(n, f).len() ==> (#[trigger] passing(n, f)[j]) < (
            #[trigger] passing(n, f)[k]),
    decreases n,
{
    if n > 0 {
        lemma_passing((n - 1) as nat, f);
        let init = passing((n - 1) as nat, f);
        let at = passing(n, f);
        assert forall|k: int| 0 <= k < at.len() implies 0 <= (#[trigger] at[k]) < n && f(at[k]) by {
            if k < init.len() {
                assert(at[k] == init[k]);
            }
        }
        assert forall|x: int| 0 <= x < n && #[trigger] f(x) implies at.contains(x) by {
            if x < n - 1 {
                let k = choose|k: int| 0 <= k < init.len() && init[k] == x;
                assert(at[k] == x);
            } else {
                assert(at[at.len() - 1] == x);
            }
        }
        assert forall|j: int, k: int| 0 <= j < k < at.len() implies (#[trigger] at[j]) < (
        #[trigger] at[k]) by {
            assert(at[j] == init[j]);
            if k < init.len() {
                assert(at[k] == init[k]);
            }
        }
    }
}

/// Tests that agree below `n` pass the same numbers.
proof fn lemma_passing_same(n: nat, f: spec_fn(int) -> bool, g: spec_fn(int) -> bool)
    requires
        forall|i: int| 0 <= i < n ==> #[trigger] f(i) == g(i),
    ensures
        passing(n, f) == passing(n, g),
    decreases n,
{
    if n > 0 {
        lemma_passing_same((n - 1) as nat, f, g);
        assert(f(n - 1) == g(n - 1));
    }
}

/// The passing numbers with the largest keys, at most `limit`.
pub open spec fn picked(
    n: nat,
    f: spec_fn(int) -> bool,
    key: spec_fn(int) -> (i64, i64),
    limit: nat,
) -> Seq<int> {
    let at = passing(n, f);
    let keys = at.map_values(key);
    Seq::new(at_most(limit, at.len()), |i: int| at[ordered(keys)[i] as int])
}

/// Whether one key is no smaller than another, by the first part and then by the
/// second.
pub open spec fn no_smaller(a: (i64, i64), b: (i64, i64)) -> bool {
    a.0 > b.0 || (a.0 == b.0 && a.1 >= b.1)
}

/// What is picked passes, comes by the largest key, and leaves nothing out for a
/// smaller one.
proof fn lemma_picked(
    n: nat,
    f: spec_fn(int) -> bool,
    key: spec_fn(int) -> (i64, i64),
    limit: nat,
)
    requires
        n <= usize::MAX,
    ensures
        ({
            let r = picked(n, f, key, limit);
            &&& r.len() <= limit
            &&& forall|i: int| 0 <= i < r.len() ==> 0 <= (#[trigger] r[i]) < n && f(r[i])
            &&& forall|i: int, j: int|
                0 <= i < j < r.len() ==> (#[trigger] r[i]) != (#[trigger] r[j]) && no_smaller(
                    key(r[i]),
                    key(r[j]),
                )
            &&& forall|x: int|
                0 <= x < n && #[trigger] f(x) && !r.contains(x) ==> r.len() == limit && forall|
                    i: int,
                |
                    0 <= i < r.len() ==> no_smaller(key(#[trigger] r[i]), key(x))
        }),
{
    let at = passing(n, f);
    let keys = at.map_values(key);
    let r = picked(n, f, key, limit);
    lemma_passing(n, f);
    law_order_is_largest_first(keys);
    let p = ordered(keys);
    assert forall|i: int| 0 <= i < r.len() implies p[i] < at.len() && #[trigger] r[i]
        == at[p[i] as int] && keys[p[i] as int] == key(r[i]) by {
        assert(p[i] < keys.len());
    }
    assert forall|i: int, j: int| 0 <= i < j < r.len() implies (#[trigger] r[i]) != (#[trigger] r[j])
        && no_smaller(key(r[i]), key(r[j])) by {
        assert(p[i] < keys.len() && p[j] < keys.len());
        assert(p[i] != p[j]);
        if p[i] < p[j] {
            assert(at[p[i] as int] < at[p[j] as int]);
        } else {
            assert(at[p[j] as int] < at[p[i] as int]);
        }
    }
    assert forall|x: int| 0 <= x < n && #[trigger] f(x) && !r.contains(x) implies r.len() == limit
        && forall|i: int|
        0 <= i < r.len() ==> no_smaller(key(#[trigger] r[i]), key(x)) by {
        let k = choose|k: int| 0 <= k < at.len() && at[k] == x;
        assert(p.contains(k as usize));
        let j = choose|j: int| 0 <= j < p.len() && p[j] == k as usize;
        if j < r.len() {
            assert(r[j] == x);
        }
        assert forall|i: int| 0 <= i < r.len() implies no_smaller(
            key(#[trigger] r[i]),
            key(x),
        ) by {
            assert(p[i] < keys.len());
            assert(keys[p[j] as int] == key(x));
        }
    }
}

/// The tasks asked for, by position.
proof fn lemma_asked_tasks(ts: Seq<TaskV>, q: TaskQueryV)
    ensures
        asked_positions(ts, q) == passing(ts.len(), |i: int| crate::tasks::asked_for(ts[i], q)),
    decreases ts.len(),
{
    let f = |i: int| crate::tasks::asked_for(ts[i], q);
    if ts.len() > 0 {
        let prev = ts.drop_last();
        lemma_asked_tasks(prev, q);
        let g = |i: int| crate::tasks::asked_for(prev[i], q);
        assert forall|i: int| 0 <= i < prev.len() implies #[trigger] f(i) == g(i) by {
            assert(prev[i] == ts[i]);
        }
        lemma_passing_same(prev.len(), f, g);
        assert(f(ts.len() - 1) == crate::tasks::asked_for(ts.last(), q));
    }
}

/// A listing of tasks shows those that were changed since the time asked for and
/// have the status asked for, those to resume where that is asked, the newest
/// first; none that is asked for is left out for an older one, and none at all
/// where there is room.
pub proof fn law_task_listing(ts: Seq<TaskV>, q: TaskQueryV, limit: nat)
    requires
        ts.len() <= usize::MAX,
    ensures
        ({
            let r = tasks_shown(ts, q, limit);
            &&& r.len() <= limit
            &&& forall|i: int|
                0 <= i < r.len() ==> {
                    let t = #[trigger] r[i];
                    &&& ts.contains(t)
                    &&& q.since is Some ==> t.updated_at >= q.since->0
                    &&& q.status is Some ==> t.status == q.status->0
                    &&& q.resumable ==> t.status == "in_progress"@ || t.status == "suspended"@
                }
            &&& forall|i: int, j: int|
                0 <= i < j < r.len() ==> (#[trigger] r[i]).updated_at >= (
                #[trigger] r[j]).updated_at
            &&& q.cwd is None ==> forall|x: int|
                0 <= x < ts.len() && (q.since is Some ==> ts[x].updated_at >= q.since->0) && (
                q.status is Some ==> ts[x].status == q.status->0) && (q.resumable ==> ts[x].status
                    == "in_progress"@ || ts[x].status == "suspended"@) && !r.contains(
                    #[trigger] ts[x],
                ) ==> r.len() == limit && forall|i: int|
                    0 <= i < r.len() ==> (#[trigger] r[i]).updated_at >= ts[x].updated_at
        }),
{
    let f = |i: int| crate::tasks::asked_for(ts[i], q);
    let key = |i: int| (ts[i].updated_at, 0i64);
    lemma_asked_tasks(ts, q);
    lemma_picked(ts.len(), f, key, limit);
    let at = asked_positions(ts, q);
    assert(task_keys(ts, at) =~= at.map_values(key));
    let p = picked(ts.len(), f, key, limit);
    let r = tasks_shown(ts, q, limit);
    assert forall|i: int| 0 <= i < r.len() implies #[trigger] r[i] == ts[p[i]] by {}
    assert forall|i: int| 0 <= i < r.len() implies {
        let t = #[trigger] r[i];
        &&& ts.contains(t)
        &&& q.since is Some ==> t.updated_at >= q.since->0
        &&& q.status is Some ==> t.status == q.status->0
        &&& q.resumable ==> t.status == "in_progress"@ || t.status == "suspended"@
    } by {
        assert(f(p[i]));
        assert(ts[p[i]] == r[i]);
    }
    assert forall|i: int, j: int| 0 <= i < j < r.len() implies (#[trigger] r[i]).updated_at >= (
    #[trigger] r[j]).updated_at by {
        assert(p[i] != p[j]);
    }
    if q.cwd is None {
        assert forall|x: int|
            0 <= x < ts.len() && (q.since is Some ==> ts[x].updated_at >= q.since->0) && (
            q.status is Some ==> ts[x].status == q.status->0) && (q.resumable ==> ts[x].status
                == "in_progress"@ || ts[x].status == "suspended"@) && !r.contains(
                #[trigger] ts[x],
            ) implies r.len() == limit && forall|i: int|
            0 <= i < r.len() ==> (#[trigger] r[i]).updated_at >= ts[x].updated_at by {
            assert(f(x));
            if p.contains(x) {
                let i = choose|i: int| 0 <= i < p.len() && p[i] == x;
                assert(r[i] == ts[x]);
            }
            assert forall|i: int| 0 <= i < r.len() implies (#[trigger] r[i]).updated_at
                >= ts[x].updated_at by {
                assert(no_smaller(key(p[i]), key(x)));
            }
        }
    }
}

/// A task found is the first with its id, and none is found only where none has
/// it.
proof fn lemma_task_found(ts: Seq<TaskV>, id: Seq<char>)
    ensures
        match task_at(ts, id) {
            Some(i) => 0 <= i < ts.len() && ts[i].id == id && forall|k: int|
                0 <= k < i ==> (#[trigger] ts[k]).id != id,
            None => forall|k: int| 0 <= k < ts.len() ==> (#[trigger] ts[k]).id != id,
        },
    decreases ts.len(),
{
    if ts.len() > 0 {
        let t = ts.drop_last();
        lemma_task_found(t, id);
        assert forall|k: int| 0 <= k < t.len() implies t[k] == #[trigger] ts[k] by {}
    }
}

/// A changed task has each field that was given and keeps each that was not; the
/// change is refused exactly where something is given and no task has the id.
pub proof fn law_task_change_sets_what_is_given(ts: Seq<TaskV>, a: UpdateArgs, now: i64)
    ensures
        task_changed(ts, a, now) is Err <==> (a.status is Some || a.result is Some
            || a.completion_id is Some) && forall|i: int|
            0 <= i < ts.len() ==> (#[trigger] ts[i]).id != a.id@,
        a.status is None && a.result is None && a.completion_id is None ==> task_changed(
            ts,
            a,
            now,
        ) == Ok::<Seq<TaskV>, Seq<char>>(ts),
        task_changed(ts, a, now) is Ok && (a.status is Some || a.result is Some
            || a.completion_id is Some) ==> exists|i: int|
            0 <= i < ts.len() && (#[trigger] ts[i]).id == a.id@ && {
                let us = task_changed(ts, a, now)->Ok_0;
                let t = us[i];
                &&& us == ts.update(i, t)
                &&& a.status is Some ==> t.status == a.status->0@
                &&& a.status is None ==> t.status == ts[i].status
                &&& a.result is Some ==> t.result == Some(a.result->0@)
                &&& a.result is None ==> t.result == ts[i].result
                &&& a.completion_id is Some ==> t.completion_id == Some(a.completion_id->0@)
                &&& a.completion_id is None ==> t.completion_id == ts[i].completion_id
                &&& t.updated_at == now && t.id == ts[i].id && t.objective == ts[i].objective
                    && t.task_type == ts[i].task_type && t.cwd == ts[i].cwd && t.created_at
                    == ts[i].created_at && t.parent_task_id == ts[i].parent_task_id
            },
{
    lemma_task_found(ts, a.id@);
    if task_changed(ts, a, now) is Ok && (a.status is Some || a.result is Some
        || a.completion_id is Some) {
        let i = task_at(ts, a.id@)->0;
        let us = task_changed(ts, a, now)->Ok_0;
        assert(us == ts.update(i, us[i]));
        assert(ts[i].id == a.id@);
    }
}

/// A new task waits, is what was asked for, and has nothing of a past.
pub proof fn law_new_task_is_pending(a: CreateArgs, id: Seq<char>, ts: i64)
    ensures
        ({
            let t = new_task(a, id, ts);
            &&& t.id == id && t.status == "pending"@ && t.objective == a.objective@ && t.task_type
                == a.task_type@ && t.cwd == a.cwd@ && t.parent_task_id == opt_text(a.parent_id)
            &&& t.completion_id is None && t.result is None && t.created_at == ts && t.updated_at
                == ts
        }),
{
}

/// The log entries of a memory, by position.
proof fn lemma_entries(es: Seq<EventV>, id: Seq<char>)
    ensures
        entries_of(es, id) == passing(es.len(), |i: int| es[i].memory_id == id),
    decreases es.len(),
{
    let f = |i: int| es[i].memory_id == id;
    if es.len() > 0 {
        let prev = es.drop_last();
        lemma_entries(prev, id);
        let g = |i: int| prev[i].memory_id == id;
        assert forall|i: int| 0 <= i < prev.len() implies #[trigger] f(i) == g(i) by {
            assert(prev[i] == es[i]);
        }
        lemma_passing_same(prev.len(), f, g);
        assert(f(es.len() - 1) == (es.last().memory_id == id));
    }
}

/// The history of a memory holds its own log entries alone, the newest first and
/// of the same time the later number first, and leaves none out for an older one.
pub proof fn law_history_is_newest_first(es: Seq<EventV>, id: Seq<char>, limit: nat)
    requires
        es.len() <= usize::MAX,
    ensures
        ({
            let r = entries_shown(es, id, limit);
            &&& r.len() <= limit
            &&& forall|i: int|
                0 <= i < r.len() ==> (#[trigger] r[i]).memory_id == id && es.contains(r[i])
            &&& forall|i: int, j: int|
                0 <= i < j < r.len() ==> (#[trigger] r[i]).ts > (#[trigger] r[j]).ts || (r[i].ts
                    == r[j].ts && r[i].id >= r[j].id)
            &&& forall|x: int|
                0 <= x < es.len() && (#[trigger] es[x]).memory_id == id && !r.contains(es[x])
                    ==> r.len() == limit && forall|i: int|
                    0 <= i < r.len() ==> (#[trigger] r[i]).ts >= es[x].ts
        }),
{
    let f = |i: int| es[i].memory_id == id;
    let key = |i: int| (es[i].ts, es[i].id);
    lemma_entries(es, id);
    lemma_picked(es.len(), f, key, limit);
    let at = entries_of(es, id);
    assert(entry_keys(es, at) =~= at.map_values(key));
    let p = picked(es.len(), f, key, limit);
    let r = entries_shown(es, id, limit);
    assert forall|i: int| 0 <= i < r.len() implies #[trigger] r[i] == es[p[i]] by {}
    assert forall|i: int| 0 <= i < r.len() implies (#[trigger] r[i]).memory_id == id
        && es.contains(r[i]) by {
        assert(f(p[i]));
        assert(es[p[i]] == r[i]);
    }
    assert forall|i: int, j: int| 0 <= i < j < r.len() implies (#[trigger] r[i]).ts > (
    #[trigger] r[j]).ts || (r[i].ts == r[j].ts && r[i].id >= r[j].id) by {
        assert(no_smaller(key(p[i]), key(p[j])));
    }
    assert forall|x: int|
        0 <= x < es.len() && (#[trigger] es[x]).memory_id == id && !r.contains(es[x]) implies r.len()
        == limit && forall|i: int| 0 <= i < r.len() ==> (#[trigger] r[i]).ts >= es[x].ts by {
        assert(f(x));
        if p.contains(x) {
            let i = choose|i: int| 0 <= i < p.len() && p[i] == x;
            assert(r[i] == es[x]);
        }
        assert forall|i: int| 0 <= i < r.len() implies (#[trigger] r[i]).ts >= es[x].ts by {
            assert(no_smaller(key(p[i]), key(x)));
        }
    }
}

/// The entry with a number is one of the memory's with that number; none is found
/// only where there is none.
proof fn lemma_numbered(es: Seq<EventV>, id: Seq<char>, n: i64)
    ensures
        match numbered_event(es, id, n) {
            Some(e) => es.contains(e) && e.memory_id == id && e.id == n,
            None => forall|i: int|
                0 <= i < es.len() ==> !((#[trigger] es[i]).memory_id == id && es[i].id == n),
        },
    decreases es.len(),
{
    if es.len() > 0 {
        let prev = es.drop_last();
        lemma_numbered(prev, id, n);
        match numbered_event(prev, id, n) {
            Some(e) => {
                let k = choose|k: int| 0 <= k < prev.len() && prev[k] == e;
                assert(es[k] == e);
            },
            None => {
                assert(es[es.len() - 1] == es.last());
                assert forall|i: int| 0 <= i < prev.len() implies prev[i] == #[trigger] es[i] by {}
            },
        }
    }
}

/// The entry that is compared is the memory's own: the one with the number that
/// was asked for, or the newest where none was; none only where there is none.
pub proof fn law_compared_entry(es: Seq<EventV>, id: Seq<char>, event: Option<i64>)
    requires
        es.len() <= usize::MAX,
    ensures
        match wanted_event(es, id, event) {
            Some(e) => {
                &&& es.contains(e) && e.memory_id == id
                &&& event is Some ==> e.id == event->0
                &&& event is None ==> forall|i: int|
                    0 <= i < es.len() && (#[trigger] es[i]).memory_id == id ==> e.ts >= es[i].ts
            },
            None => forall|i: int|
                0 <= i < es.len() ==> !((#[trigger] es[i]).memory_id == id && (event is Some
                    ==> es[i].id == event->0)),
        },
{
    match event {
        Some(n) => {
            lemma_numbered(es, id, n);
        },
        None => {
            law_history_is_newest_first(es, id, 1);
            let r = entries_shown(es, id, 1);
            if r.len() > 0 {
                assert forall|i: int|
                    0 <= i < es.len() && (#[trigger] es[i]).memory_id == id implies r[0].ts
                    >= es[i].ts by {
                    if r.contains(es[i]) {
                        let k = choose|k: int| 0 <= k < r.len() && r[k] == es[i];
                        assert(k == 0);
                    }
                }
            } else {
                assert forall|i: int| 0 <= i < es.len() implies !((#[trigger] es[i]).memory_id
                    == id) by {
                    if es[i].memory_id == id {
                        assert(!r.contains(es[i]));
                    }
                }
            }
        },
    }
}

/// A field is shown as changed exactly where its values differ, with the value
/// before and the value after; fields keep their order.
pub proof fn law_changes_are_the_differences(ks: Seq<Seq<char>>, a: JsonV, b: JsonV)
    ensures
        forall|i: int|
            0 <= i < changes_among(ks, a, b).len() ==> {
                let c = #[trigger] changes_among(ks, a, b)[i];
                &&& ks.contains(c.field)
                &&& c.before == value_or_null(a, c.field) && c.after == value_or_null(b, c.field)
                &&& !crate::json::values_equal(c.before, c.after)
            },
        forall|k: int|
            0 <= k < ks.len() && !crate::json::values_equal(
                value_or_null(a, #[trigger] ks[k]),
                value_or_null(b, ks[k]),
            ) ==> exists|i: int|
                0 <= i < changes_among(ks, a, b).len() && (#[trigger] changes_among(
                    ks,
                    a,
                    b,
                )[i]).field == ks[k],
    decreases ks.len(),
{
    if ks.len() > 0 {
        let prev = ks.drop_last();
        law_changes_are_the_differences(prev, a, b);
        let r = changes_among(ks, a, b);
        let init = changes_among(prev, a, b);
        assert forall|i: int| 0 <= i < r.len() implies {
            let c = #[trigger] r[i];
            &&& ks.contains(c.field)
            &&& c.before == value_or_null(a, c.field) && c.after == value_or_null(b, c.field)
            &&& !crate::json::values_equal(c.before, c.after)
        } by {
            if i < init.len() {
                assert(r[i] == init[i]);
                let k = choose|k: int| 0 <= k < prev.len() && prev[k] == r[i].field;
                assert(ks[k] == r[i].field);
            } else {
                assert(ks[ks.len() - 1] == r[i].field);
            }
        }
        assert forall|k: int|
            0 <= k < ks.len() && !crate::json::values_equal(
                value_or_null(a, #[trigger] ks[k]),
                value_or_null(b, ks[k]),
            ) implies exists|i: int| 0 <= i < r.len() && (#[trigger] r[i]).field == ks[k] by {
            if k < prev.len() {
                assert(prev[k] == ks[k]);
                let i = choose|i: int| 0 <= i < init.len() && (#[trigger] init[i]).field == prev[k];
                assert(r[i].field == ks[k]);
            } else {
                assert(r[r.len() - 1].field == ks[k]);
            }
        }
    }
}

/// The listed conflicts, by position.
proof fn lemma_conflicts(s: StoreV, all: bool, n: nat)
    ensures
        conflict_positions(s, all, n) == passing(
            n,
            |i: int| crate::history::listed_conflict(s, s.conflicts[i], all),
        ),
    decreases n,
{
    if n > 0 {
        lemma_conflicts(s, all, (n - 1) as nat);
    }
}

/// The conflict queue lists the open conflicts, or all where that is asked, of
/// which both memories are stored; each once, the newest first, and none is left
/// out.
pub proof fn law_conflict_queue_is_complete(s: StoreV, all: bool)
    requires
        s.conflicts.len() <= usize::MAX,
    ensures
        ({
            let r = conflicts_shown(s, all);
            &&& forall|i: int|
                0 <= i < r.len() ==> {
                    let c = s.conflicts[#[trigger] r[i]];
                    &&& 0 <= r[i] < s.conflicts.len()
                    &&& all || c.status == "open"@
                    &&& s.get(c.old_id) is Some && s.get(c.new_id) is Some
                }
            &&& forall|i: int, j: int|
                0 <= i < j < r.len() ==> (#[trigger] r[i]) != (#[trigger] r[j])
                    && s.conflicts[r[i]].created_at >= s.conflicts[r[j]].created_at
            &&& forall|x: int|
                0 <= x < s.conflicts.len() && (all || (#[trigger] s.conflicts[x]).status
                    == "open"@) && s.get(s.conflicts[x].old_id) is Some && s.get(
                    s.conflicts[x].new_id,
                ) is Some ==> r.contains(x)
        }),
{
    let n = s.conflicts.len();
    let f = |i: int| crate::history::listed_conflict(s, s.conflicts[i], all);
    let key = |i: int| (s.conflicts[i].created_at, 0i64);
    lemma_conflicts(s, all, n);
    let at = conflict_positions(s, all, n);
    lemma_passing(n, f);
    lemma_picked(n, f, key, n);
    assert(conflict_keys(s.conflicts, at) =~= at.map_values(key));
    let p = picked(n, f, key, n);
    let r = conflicts_shown(s, all);
    assert(r =~= p);
    assert forall|i: int| 0 <= i < r.len() implies {
        let c = s.conflicts[#[trigger] r[i]];
        &&& 0 <= r[i] < s.conflicts.len()
        &&& all || c.status == "open"@
        &&& s.get(c.old_id) is Some && s.get(c.new_id) is Some
    } by {
        assert(f(p[i]));
    }
    assert forall|i: int, j: int| 0 <= i < j < r.len() implies (#[trigger] r[i]) != (#[trigger] r[j])
        && s.conflicts[r[i]].created_at >= s.conflicts[r[j]].created_at by {
        assert(no_smaller(key(p[i]), key(p[j])));
    }
    assert forall|x: int|
        0 <= x < s.conflicts.len() && (all || (#[trigger] s.conflicts[x]).status == "open"@)
            && s.get(s.conflicts[x].old_id) is Some && s.get(
            s.conflicts[x].new_id,
        ) is Some implies r.contains(x) by {
        assert(f(x));
        if !p.contains(x) {
            // Every position is picked: there are as many as the limit.
            assert(p.len() == n);
            assert(at.contains(x));
            let keys = at.map_values(key);
            law_order_is_largest_first(keys);
            let k = choose|k: int| 0 <= k < at.len() && at[k] == x;
            assert(ordered(keys).contains(k as usize));
            let j = choose|j: int| 0 <= j < ordered(keys).len() && ordered(keys)[j] == k as usize;
            assert(p[j] == x);
        }
    }
}

/// The entries of the recall log that are asked for, by position.
proof fn lemma_log_positions(log: Seq<RecallLogV>, v: LogView)
    ensures
        entry_positions(log, v) == passing(
            log.len(),
            |i: int| crate::recall::wanted_entry(log[i], v),
        ),
    decreases log.len(),
{
    let f = |i: int| crate::recall::wanted_entry(log[i], v);
    if log.len() > 0 {
        let prev = log.drop_last();
        lemma_log_positions(prev, v);
        let g = |i: int| crate::recall::wanted_entry(prev[i], v);
        assert forall|i: int| 0 <= i < prev.len() implies #[trigger] f(i) == g(i) by {
            assert(prev[i] == log[i]);
        }
        lemma_passing_same(prev.len(), f, g);
        assert(f(log.len() - 1) == crate::recall::wanted_entry(log.last(), v));
    }
}

/// What a view of the recall log picks.
proof fn lemma_log_entries(log: Seq<RecallLogV>, v: LogView, limit: nat)
    requires
        log.len() <= usize::MAX,
    ensures
        ({
            let r = log_entries(log, v, limit);
            &&& r.len() <= limit
            &&& forall|i: int|
                0 <= i < r.len() ==> log.contains(#[trigger] r[i]) && crate::recall::wanted_entry(
                    r[i],
                    v,
                )
            &&& forall|i: int, j: int|
                0 <= i < j < r.len() ==> no_smaller(
                    entry_key(#[trigger] r[i], v),
                    entry_key(#[trigger] r[j], v),
                )
            &&& forall|x: int|
                0 <= x < log.len() && crate::recall::wanted_entry(#[trigger] log[x], v)
                    && !r.contains(log[x]) ==> r.len() == limit && forall|i: int|
                    0 <= i < r.len() ==> no_smaller(
                        entry_key(#[trigger] r[i], v),
                        entry_key(log[x], v),
                    )
        }),
{
    let f = |i: int| crate::recall::wanted_entry(log[i], v);
    let key = |i: int| entry_key(log[i], v);
    lemma_log_positions(log, v);
    lemma_picked(log.len(), f, key, limit);
    let at = entry_positions(log, v);
    assert(entry_key_list(log, at, v) =~= at.map_values(key));
    let p = picked(log.len(), f, key, limit);
    let r = log_entries(log, v, limit);
    assert forall|i: int| 0 <= i < r.len() implies #[trigger] r[i] == log[p[i]] by {}
    assert forall|i: int| 0 <= i < r.len() implies log.contains(#[trigger] r[i])
        && crate::recall::wanted_entry(r[i], v) by {
        assert(f(p[i]));
        assert(log[p[i]] == r[i]);
    }
    assert forall|i: int, j: int| 0 <= i < j < r.len() implies no_smaller(
        entry_key(#[trigger] r[i], v),
        entry_key(#[trigger] r[j], v),
    ) by {
        assert(no_smaller(key(p[i]), key(p[j])));
    }
    assert forall|x: int|
        0 <= x < log.len() && crate::recall::wanted_entry(#[trigger] log[x], v) && !r.contains(
            log[x],
        ) implies r.len() == limit && forall|i: int|
        0 <= i < r.len() ==> no_smaller(entry_key(#[trigger] r[i], v), entry_key(log[x], v)) by {
        assert(f(x));
        if p.contains(x) {
            let i = choose|i: int| 0 <= i < p.len() && p[i] == x;
            assert(r[i] == log[x]);
        }
        assert forall|i: int| 0 <= i < r.len() implies no_smaller(
            entry_key(#[trigger] r[i], v),
            entry_key(log[x], v),
        ) by {
            assert(no_smaller(key(p[i]), key(x)));
        }
    }
}

/// Whether a recall found little: nothing, or nothing that reaches a threshold.
pub open spec fn found_little(r: RecallLogV, threshold: Rank) -> bool {
    match r.top_score {
        None => true,
        Some(s) => s.key < threshold.key,
    }
}

/// Whether one recall found no more than another: nothing before anything, then
/// by score.
pub open spec fn found_no_more(a: RecallLogV, b: RecallLogV) -> bool {
    match (a.top_score, b.top_score) {
        (None, _) => true,
        (Some(x), Some(y)) => x.key <= y.key,
        (Some(x), None) => x.key == i64::MIN,
    }
}

/// The gaps are the recalls since a time that found little, the worst first: one
/// that found nothing stands before one that found something, and a lower score
/// before a higher. None is left out for a better one.
pub proof fn law_gaps_are_the_worst_first(
    log: Seq<RecallLogV>,
    since: i64,
    threshold: Rank,
    limit: nat,
)
    requires
        log.len() <= usize::MAX,
    ensures
        ({
            let r = log_entries(log, LogView::Gaps { since, threshold }, limit);
            &&& r.len() <= limit
            &&& forall|i: int|
                0 <= i < r.len() ==> (#[trigger] r[i]).ts >= since && found_little(r[i], threshold)
                    && log.contains(r[i])
            &&& forall|i: int, j: int|
                0 <= i < j < r.len() ==> found_no_more(#[trigger] r[i], #[trigger] r[j])
            &&& forall|x: int|
                0 <= x < log.len() && (#[trigger] log[x]).ts >= since && found_little(
                    log[x],
                    threshold,
                ) && !r.contains(log[x]) ==> r.len() == limit && forall|i: int|
                    0 <= i < r.len() ==> found_no_more(#[trigger] r[i], log[x])
        }),
{
    let v = LogView::Gaps { since, threshold };
    lemma_log_entries(log, v, limit);
    let r = log_entries(log, v, limit);
    assert forall|i: int, j: int| 0 <= i < j < r.len() implies found_no_more(
        #[trigger] r[i],
        #[trigger] r[j],
    ) by {
        assert(no_smaller(entry_key(r[i], v), entry_key(r[j], v)));
    }
    assert forall|x: int|
        0 <= x < log.len() && (#[trigger] log[x]).ts >= since && found_little(log[x], threshold)
            && !r.contains(log[x]) implies r.len() == limit && forall|i: int|
        0 <= i < r.len() ==> found_no_more(#[trigger] r[i], log[x]) by {
        assert(crate::recall::wanted_entry(log[x], v));
        assert forall|i: int| 0 <= i < r.len() implies found_no_more(#[trigger] r[i], log[x]) by {
            assert(no_smaller(entry_key(r[i], v), entry_key(log[x], v)));
        }
    }
}

/// The recalls that a search by words would have missed are those since a time,
/// compared with such a search, that reached a threshold where it found nothing;
/// the best first.
pub proof fn law_missed_by_words_are_the_best_first(
    log: Seq<RecallLogV>,
    since: i64,
    threshold: Rank,
    limit: nat,
)
    requires
        log.len() <= usize::MAX,
        threshold.key > 0,
    ensures
        ({
            let r = log_entries(log, LogView::Missed { since, threshold }, limit);
            &&& r.len() <= limit
            &&& forall|i: int|
                0 <= i < r.len() ==> {
                    let e = #[trigger] r[i];
                    &&& log.contains(e) && e.ts >= since && e.compare_used == 1
                    &&& e.top_score is Some && e.top_score->0.key >= threshold.key
                    &&& e.fts_hits is None || e.fts_hits == Some(0i64)
                }
            &&& forall|i: int, j: int|
                0 <= i < j < r.len() ==> (#[trigger] r[i]).top_score->0.key >= (
                #[trigger] r[j]).top_score->0.key
            &&& forall|x: int|
                0 <= x < log.len() && (#[trigger] log[x]).ts >= since && log[x].compare_used == 1
                    && log[x].top_score is Some && log[x].top_score->0.key >= threshold.key && (
                log[x].fts_hits is None || log[x].fts_hits == Some(0i64)) && !r.contains(log[x])
                    ==> r.len() == limit
        }),
{
    let v = LogView::Missed { since, threshold };
    lemma_log_entries(log, v, limit);
    let r = log_entries(log, v, limit);
    assert forall|i: int, j: int| 0 <= i < j < r.len() implies (#[trigger] r[i]).top_score->0.key
        >= (#[trigger] r[j]).top_score->0.key by {
        assert(crate::recall::wanted_entry(r[i], v) && crate::recall::wanted_entry(r[j], v));
        assert(no_smaller(entry_key(r[i], v), entry_key(r[j], v)));
    }
    assert forall|x: int|
        0 <= x < log.len() && (#[trigger] log[x]).ts >= since && log[x].compare_used == 1
            && log[x].top_score is Some && log[x].top_score->0.key >= threshold.key && (
        log[x].fts_hits is None || log[x].fts_hits == Some(0i64)) && !r.contains(
            log[x],
        ) implies r.len() == limit by {
        assert(crate::recall::wanted_entry(log[x], v));
    }
}

/// The recent recalls are the newest of all, the newest first.
pub proof fn law_recent_recalls_are_the_newest(log: Seq<RecallLogV>, limit: nat)
    requires
        log.len() <= usize::MAX,
    ensures
        ({
            let r = log_entries(log, LogView::Recent, limit);
            &&& r.len() <= limit
            &&& forall|i: int| 0 <= i < r.len() ==> log.contains(#[trigger] r[i])
            &&& forall|i: int, j: int|
                0 <= i < j < r.len() ==> (#[trigger] r[i]).ts >= (#[trigger] r[j]).ts
            &&& forall|x: int|
                0 <= x < log.len() && !r.contains(#[trigger] log[x]) ==> r.len() == limit
                    && forall|i: int| 0 <= i < r.len() ==> (#[trigger] r[i]).ts >= log[x].ts
        }),
{
    let v = LogView::Recent;
    lemma_log_entries(log, v, limit);
    let r = log_entries(log, v, limit);
    assert forall|i: int, j: int| 0 <= i < j < r.len() implies (#[trigger] r[i]).ts >= (
    #[trigger] r[j]).ts by {
        assert(no_smaller(entry_key(r[i], v), entry_key(r[j], v)));
    }
    assert forall|x: int| 0 <= x < log.len() && !r.contains(#[trigger] log[x]) implies r.len()
        == limit && forall|i: int| 0 <= i < r.len() ==> (#[trigger] r[i]).ts >= log[x].ts by {
        assert(crate::recall::wanted_entry(log[x], v));
        assert forall|i: int| 0 <= i < r.len() implies (#[trigger] r[i]).ts >= log[x].ts by {
            assert(no_smaller(entry_key(r[i], v), entry_key(log[x], v)));
        }
    }
}

/// The entries of the knowledge index that are listed, by position.
proof fn lemma_browsed(ms: Seq<MemoryV>, scope: ScopeV, f: KxFiltersV)
    ensures
        browsed(ms, scope, f) == passing(
            ms.len(),
            |i: int| crate::kx_query::browsable(ms[i], scope, f),
        ),
    decreases ms.len(),
{
    let p = |i: int| crate::kx_query::browsable(ms[i], scope, f);
    if ms.len() > 0 {
        let prev = ms.drop_last();
        lemma_browsed(prev, scope, f);
        let q = |i: int| crate::kx_query::browsable(prev[i], scope, f);
        assert forall|i: int| 0 <= i < prev.len() implies #[trigger] p(i) == q(i) by {
            assert(prev[i] == ms[i]);
        }
        lemma_passing_same(prev.len(), p, q);
        assert(p(ms.len() - 1) == crate::kx_query::browsable(ms.last(), scope, f));
    }
}

/// Browsing the knowledge index shows its entries in force that are within the
/// scope, tags and days, and no other memory; the one changed last first, and
/// none is left out for an older one.
pub proof fn law_browsing_shows_the_index(
    ms: Seq<MemoryV>,
    scope: ScopeV,
    f: KxFiltersV,
    limit: nat,
)
    requires
        ms.len() <= usize::MAX,
    ensures
        ({
            let r = listing(ms, scope, f, limit);
            &&& r.len() <= limit
            &&& forall|i: int|
                0 <= i < r.len() ==> {
                    let m = #[trigger] r[i];
                    &&& ms.contains(m) && m.type_ == "kx"@ && m.is_active && m.lifecycle
                        == "active"@
                    &&& scope.admits(m.scope) && within(m, f)
                }
            &&& forall|i: int, j: int|
                0 <= i < j < r.len() ==> (#[trigger] r[i]).updated_at >= (
                #[trigger] r[j]).updated_at
            &&& forall|x: int|
                0 <= x < ms.len() && (#[trigger] ms[x]).type_ == "kx"@ && ms[x].is_active
                    && ms[x].lifecycle == "active"@ && scope.admits(ms[x].scope) && within(
                    ms[x],
                    f,
                ) && !r.contains(ms[x]) ==> r.len() == limit && forall|i: int|
                    0 <= i < r.len() ==> (#[trigger] r[i]).updated_at >= ms[x].updated_at
        }),
{
    let t = |i: int| crate::kx_query::browsable(ms[i], scope, f);
    let key = |i: int| (ms[i].updated_at, 0i64);
    lemma_browsed(ms, scope, f);
    lemma_picked(ms.len(), t, key, limit);
    let at = browsed(ms, scope, f);
    let keys = at.map_values(|i: int| (ms[i].updated_at, 0i64));
    assert(keys =~= at.map_values(key));
    let p = picked(ms.len(), t, key, limit);
    let r = listing(ms, scope, f, limit);
    assert forall|i: int| 0 <= i < r.len() implies #[trigger] r[i] == ms[p[i]] by {}
    assert forall|i: int| 0 <= i < r.len() implies {
        let m = #[trigger] r[i];
        &&& ms.contains(m) && m.type_ == "kx"@ && m.is_active && m.lifecycle == "active"@
        &&& scope.admits(m.scope) && within(m, f)
    } by {
        assert(t(p[i]));
        assert(ms[p[i]] == r[i]);
    }
    assert forall|i: int, j: int| 0 <= i < j < r.len() implies (#[trigger] r[i]).updated_at >= (
    #[trigger] r[j]).updated_at by {
        assert(no_smaller(key(p[i]), key(p[j])));
    }
    assert forall|x: int|
        0 <= x < ms.len() && (#[trigger] ms[x]).type_ == "kx"@ && ms[x].is_active
            && ms[x].lifecycle == "active"@ && scope.admits(ms[x].scope) && within(ms[x], f)
            && !r.contains(ms[x]) implies r.len() == limit && forall|i: int|
        0 <= i < r.len() ==> (#[trigger] r[i]).updated_at >= ms[x].updated_at by {
        assert(t(x));
        if p.contains(x) {
            let i = choose|i: int| 0 <= i < p.len() && p[i] == x;
            assert(r[i] == ms[x]);
        }
        assert forall|i: int| 0 <= i < r.len() implies (#[trigger] r[i]).updated_at
            >= ms[x].updated_at by {
            assert(no_smaller(key(p[i]), key(x)));
        }
    }
}

/// The newest log entries of sessions are the newest, the newest first.
pub proof fn law_newest_sessions(log: Seq<ContextLogV>, n: nat)
    requires
        log.len() <= usize::MAX,
    ensures
        ({
            let r = newest(log, n);
            &&& r.len() == (if n < log.len() {
                n
            } else {
                log.len()
            })
            &&& forall|i: int| 0 <= i < r.len() ==> log.contains(#[trigger] r[i])
            &&& forall|i: int, j: int|
                0 <= i < j < r.len() ==> (#[trigger] r[i]).created_at >= (
                #[trigger] r[j]).created_at
            &&& forall|x: int, i: int|
                0 <= x < log.len() && 0 <= i < r.len() && !r.contains(#[trigger] log[x]) ==> (
                #[trigger] r[i]).created_at >= log[x].created_at
        }),
{
    let keys = log_keys(log);
    law_order_is_largest_first(keys);
    let p = ordered(keys);
    let r = newest(log, n);
    assert forall|i: int| 0 <= i < r.len() implies p[i] < log.len() && #[trigger] r[i]
        == log[p[i] as int] && keys[p[i] as int] == (r[i].created_at, 0i64) by {
        assert(p[i] < keys.len());
    }
    assert forall|i: int| 0 <= i < r.len() implies log.contains(#[trigger] r[i]) by {
        assert(log[p[i] as int] == r[i]);
    }
    assert forall|i: int, j: int| 0 <= i < j < r.len() implies (#[trigger] r[i]).created_at >= (
    #[trigger] r[j]).created_at by {
        assert(p[i] < keys.len() && p[j] < keys.len());
    }
    assert forall|x: int, i: int|
        0 <= x < log.len() && 0 <= i < r.len() && !r.contains(#[trigger] log[x]) implies (
    #[trigger] r[i]).created_at >= log[x].created_at by {
        assert(p.contains(x as usize));
        let j = choose|j: int| 0 <= j < p.len() && p[j] == x as usize;
        if j < r.len() {
            assert(r[j] == log[x]);
        }
        assert(p[i] < keys.len());
        assert(keys[p[j] as int] == (log[x].created_at, 0i64));
    }
}

/// The active memories, by position.
proof fn lemma_active(ms: Seq<MemoryV>, n: nat)
    ensures
        active_positions(ms, n) == passing(n, |i: int| ms[i].is_active),
    decreases n,
{
    if n > 0 {
        lemma_active(ms, (n - 1) as nat);
    }
}

/// No more types come before another than there are memories.
proof fn lemma_types_before(ms: Seq<MemoryV>, t: Seq<char>, n: nat)
    ensures
        types_before(ms, t, n) <= n,
    decreases n,
{
    if n > 0 {
        lemma_types_before(ms, t, (n - 1) as nat);
    }
}

/// An export holds every active memory once and no other; within a type the newer
/// comes first.
pub proof fn law_export_holds_what_is_active(ms: Seq<MemoryV>)
    requires
        ms.len() <= usize::MAX,
        ms.len() <= i64::MAX,
    ensures
        ({
            let r = exported(ms);
            &&& forall|i: int| 0 <= i < r.len() ==> (#[trigger] r[i]).is_active && ms.contains(r[i])
            &&& forall|x: int| 0 <= x < ms.len() && (#[trigger] ms[x]).is_active ==> r.contains(ms[x])
            &&& forall|i: int, j: int|
                0 <= i < j < r.len() && (#[trigger] r[i]).type_ == (#[trigger] r[j]).type_
                    ==> r[i].updated_at >= r[j].updated_at
        }),
{
    let f = |i: int| ms[i].is_active;
    let key = |i: int| export_key(ms, i);
    lemma_active(ms, ms.len());
    lemma_passing(ms.len(), f);
    lemma_picked(ms.len(), f, key, ms.len());
    let at = active_positions(ms, ms.len());
    assert(export_keys(ms, at) =~= at.map_values(key));
    let p = picked(ms.len(), f, key, ms.len());
    let r = exported(ms);
    assert(p.len() == at.len());
    assert forall|i: int| 0 <= i < r.len() implies #[trigger] r[i] == ms[p[i]] by {}
    assert forall|i: int| 0 <= i < r.len() implies (#[trigger] r[i]).is_active && ms.contains(
        r[i],
    ) by {
        assert(f(p[i]));
        assert(ms[p[i]] == r[i]);
    }
    assert forall|x: int| 0 <= x < ms.len() && (#[trigger] ms[x]).is_active implies r.contains(
        ms[x],
    ) by {
        assert(f(x));
        let keys = at.map_values(key);
        law_order_is_largest_first(keys);
        let k = choose|k: int| 0 <= k < at.len() && at[k] == x;
        assert(ordered(keys).contains(k as usize));
        let j = choose|j: int| 0 <= j < ordered(keys).len() && ordered(keys)[j] == k as usize;
        assert(r[j] == ms[x]);
    }
    assert forall|i: int, j: int|
        0 <= i < j < r.len() && (#[trigger] r[i]).type_ == (#[trigger] r[j]).type_ implies r[i].updated_at
        >= r[j].updated_at by {
        assert(no_smaller(key(p[i]), key(p[j])));
    }
}

/// A reindexing goes over the active memories, over those without a vector alone
/// where that is asked, and leaves none of them out.
pub proof fn law_reindexing_goes_over_what_is_active(
    ms: Seq<MemoryV>,
    missing: bool,
    embedded: Seq<Seq<char>>,
    n: nat,
)
    requires
        n <= ms.len(),
    ensures
        ({
            let at = to_embed(ms, missing, embedded, n);
            &&& forall|k: int|
                0 <= k < at.len() ==> 0 <= (#[trigger] at[k]) < n && ms[at[k]].is_active && (missing
                    ==> !embedded.contains(ms[at[k]].id))
            &&& forall|x: int|
                0 <= x < n && (#[trigger] ms[x]).is_active && (missing ==> !embedded.contains(
                    ms[x].id,
                )) ==> at.contains(x)
            &&& forall|j: int, k: int|
                0 <= j < k < at.len() ==> (#[trigger] at[j]) < (#[trigger] at[k])
        }),
    decreases n,
{
    if n > 0 {
        law_reindexing_goes_over_what_is_active(ms, missing, embedded, (n - 1) as nat);
        let init = to_embed(ms, missing, embedded, (n - 1) as nat);
        let at = to_embed(ms, missing, embedded, n);
        let id = ms[n - 1].id;
        assert(listed(embedded, id) == embedded.contains(id)) by {
            if embedded.contains(id) {
                let k = choose|k: int| 0 <= k < embedded.len() && embedded[k] == id;
                assert(embedded[k] == id);
            }
        }
        assert forall|k: int| 0 <= k < at.len() implies 0 <= (#[trigger] at[k]) < n
            && ms[at[k]].is_active && (missing ==> !embedded.contains(ms[at[k]].id)) by {
            if k < init.len() {
                assert(at[k] == init[k]);
            }
        }
        assert forall|x: int|
            0 <= x < n && (#[trigger] ms[x]).is_active && (missing ==> !embedded.contains(
                ms[x].id,
            )) implies at.contains(x) by {
            if x < n - 1 {
                let k = choose|k: int| 0 <= k < init.len() && init[k] == x;
                assert(at[k] == x);
            } else {
                assert(at[at.len() - 1] == x);
            }
        }
        assert forall|j: int, k: int| 0 <= j < k < at.len() implies (#[trigger] at[j]) < (
        #[trigger] at[k]) by {
            assert(at[j] == init[j]);
            if k < init.len() {
                assert(at[k] == init[k]);
            }
        }
    }
}

/// The topics asked about are the topics of the questions since a time, each
/// once; and the questions about a topic are all of those.
pub proof fn law_topics_are_those_asked_about(log: Seq<RecallLogV>, since: i64)
    ensures
        forall|x: int|
            0 <= x < log.len() && (#[trigger] log[x]).ts >= since ==> topics_asked(
                log,
                since,
            ).contains(topic_of(log[x].query)),
        forall|k: int|
            0 <= k < topics_asked(log, since).len() ==> exists|x: int|
                0 <= x < log.len() && (#[trigger] log[x]).ts >= since && topic_of(log[x].query)
                    == #[trigger] topics_asked(log, since)[k],
        forall|i: int, j: int|
            0 <= i < j < topics_asked(log, since).len() ==> (#[trigger] topics_asked(log, since)[i])
                != (#[trigger] topics_asked(log, since)[j]),
    decreases log.len(),
{
    if log.len() > 0 {
        let prev = log.drop_last();
        law_topics_are_those_asked_about(prev, since);
        let r = topics_asked(log, since);
        let init = topics_asked(prev, since);
        let t = topic_of(log.last().query);
        assert(listed(init, t) == init.contains(t)) by {
            if init.contains(t) {
                let k = choose|k: int| 0 <= k < init.len() && init[k] == t;
                assert(init[k] == t);
            }
        }
        assert forall|x: int| 0 <= x < log.len() && (#[trigger] log[x]).ts >= since implies r.contains(
            topic_of(log[x].query),
        ) by {
            let y = topic_of(log[x].query);
            if x < prev.len() {
                assert(prev[x] == log[x]);
            }
            if init.contains(y) {
                let k = choose|k: int| 0 <= k < init.len() && init[k] == y;
                assert(r[k] == y);
            } else {
                assert(r[r.len() - 1] == y);
            }
        }
        assert forall|k: int| 0 <= k < r.len() implies exists|x: int|
            0 <= x < log.len() && (#[trigger] log[x]).ts >= since && topic_of(log[x].query)
                == #[trigger] r[k] by {
            if k < init.len() {
                assert(r[k] == init[k]);
                let x = choose|x: int|
                    0 <= x < prev.len() && (#[trigger] prev[x]).ts >= since && topic_of(
                        prev[x].query,
                    ) == init[k];
                assert(log[x] == prev[x]);
            } else {
                assert(log[log.len() - 1] == log.last());
            }
        }
        assert forall|i: int, j: int| 0 <= i < j < r.len() implies (#[trigger] r[i]) != (
        #[trigger] r[j]) by {
            assert(r[i] == init[i]);
            if j < init.len() {
                assert(r[j] == init[j]);
            } else {
                assert(init.contains(init[i]));
            }
        }
    }
}

/// The questions about a topic are those since a time whose topic it is, all of
/// them and in order.
pub proof fn law_questions_about_a_topic(log: Seq<RecallLogV>, since: i64, topic: Seq<char>)
    ensures
        asked_about(log, since, topic) == passing(
            log.len(),
            |i: int| log[i].ts >= since && topic_of(log[i].query) == topic,
        ),
    decreases log.len(),
{
    let f = |i: int| log[i].ts >= since && topic_of(log[i].query) == topic;
    if log.len() > 0 {
        let prev = log.drop_last();
        law_questions_about_a_topic(prev, since, topic);
        let g = |i: int| prev[i].ts >= since && topic_of(prev[i].query) == topic;
        assert forall|i: int| 0 <= i < prev.len() implies #[trigger] f(i) == g(i) by {
            assert(prev[i] == log[i]);
        }
        lemma_passing_same(prev.len(), f, g);
        assert(f(log.len() - 1) == (log.last().ts >= since && topic_of(log.last().query)
            == topic));
    }
}

} // verus!
