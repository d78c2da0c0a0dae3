//! What supersession and judging owe: when a verdict replaces a memory and when
//! it only asks a person, what is compared, and what a sweep goes over.
use crate::adjudicate::{
    loaded, marked, nominated, proposal, prose_markers, sweep_key, sweep_keys, swept_positions,
    verdict_applied, verdicts_applied, AppliedV, CandidateV, Verdict,
};
use crate::rows::{snapshot, MemoryV};
use crate::sort::is_order;
use crate::store::{
    lemma_position, lemma_position_is, position, ConflictV, EdgeV, Rank, StoreV, ONE_KEY,
};
use crate::supersede::{
    dismissal, has_edge, is_queued, open_conflict, queued, retraction, superseded, supersession,
};
use crate::text::{ascii_lower, blank, contains, listed};
use vstd::prelude::*;

verus! {

/// A memory that is put in another's place is found there.
proof fn lemma_put(ms: Seq<MemoryV>, i: int, m: MemoryV)
    requires
        position(ms, m.id) == Some(i),
    ensures
        position(ms.update(i, m), m.id) == Some(i),
        ms.update(i, m)[i] == m,
{
    lemma_position(ms, m.id);
    let u = ms.update(i, m);
    assert forall|k: int| 0 <= k < i implies (#[trigger] u[k]).id != m.id by {
        assert(ms[k].id != m.id);
    }
    lemma_position_is(u, m.id, i);
}

/// A supersession is accepted exactly between two different stored memories. The
/// replaced one names its successor and the reason, keeps every word, and stays
/// readable; an edge records who decided it, how surely and when, unless the pair
/// has one; one entry of the log shows it.
pub proof fn law_supersession_shows(
    s: StoreV,
    old_id: Seq<char>,
    new_id: Seq<char>,
    kind: Seq<char>,
    reason: Seq<char>,
    confidence: Rank,
    actor: Seq<char>,
    ts: i64,
)
    ensures
        supersession(s, old_id, new_id, kind, reason, confidence, actor, ts) is Ok <==> {
            &&& old_id != new_id
            &&& s.get(old_id) is Some
            &&& s.get(new_id) is Some
        },
        supersession(s, old_id, new_id, kind, reason, confidence, actor, ts) is Ok ==> ({
            let t = supersession(s, old_id, new_id, kind, reason, confidence, actor, ts)->Ok_0;
            let m = s.get(old_id)->0;
            let n = t.get(old_id)->0;
            let e = t.events.last();
            &&& t.get(old_id) is Some
            &&& n.superseded_by == Some(new_id) && n.supersede_reason == Some(reason)
                && n.lifecycle == "superseded"@ && n.updated_at == ts
            &&& n.id == m.id && n.type_ == m.type_ && n.name == m.name && n.description
                == m.description && n.content == m.content && n.source == m.source && n.tags
                == m.tags && n.cwd == m.cwd && n.scope == m.scope
            &&& n.is_active == m.is_active && n.created_at == m.created_at && n.author == m.author
                && n.verified_at == m.verified_at && n.valid_from == m.valid_from
            &&& kind == "updates"@ && m.valid_to is None ==> n.valid_to == Some(ts)
            &&& kind != "updates"@ ==> n.valid_to == m.valid_to
            &&& t.events.len() == s.events.len() + 1 && e.action == "supersede"@ && e.memory_id
                == old_id && e.actor == actor && e.reason == reason && e.ts == ts
            &&& e.before_json == Some(snapshot(m)) && e.after_json == Some(snapshot(n))
            &&& t.edges == s.edges || t.edges == s.edges.push(
                EdgeV {
                    old_id,
                    new_id: Some(new_id),
                    kind,
                    reason,
                    confidence,
                    actor,
                    created_at: ts,
                },
            )
            &&& t.edges == s.edges ==> exists|i: int|
                0 <= i < s.edges.len() && (#[trigger] s.edges[i]).old_id == old_id
                    && s.edges[i].new_id == Some(new_id)
            &&& t.conflicts.len() == s.conflicts.len() && forall|i: int|
                0 <= i < s.conflicts.len() ==> {
                    let c = s.conflicts[i];
                    let about = (c.old_id == old_id && c.new_id == new_id) || (c.old_id == new_id
                        && c.new_id == old_id);
                    if about && c.status == "open"@ {
                        (#[trigger] t.conflicts[i]).status == "resolved"@
                    } else {
                        t.conflicts[i] == c
                    }
                }
        }),
{
    lemma_position(s.memories, old_id);
    lemma_position(s.memories, new_id);
    match position(s.memories, old_id) {
        Some(i) => {
            lemma_put(s.memories, i, superseded(s.memories[i], new_id, kind, reason, ts));
        },
        None => {},
    }
    if old_id != new_id && s.get(old_id) is Some && s.get(new_id) is Some {
        let t = supersession(s, old_id, new_id, kind, reason, confidence, actor, ts)->Ok_0;
        if !has_edge(s.edges, old_id, new_id) {
            assert(t.edges.len() == s.edges.len() + 1);
        }
    }
}

/// A withdrawal is accepted exactly of a stored memory and with a reason. The
/// memory is withdrawn and active no more, keeps every word, and an edge without
/// a successor says why and by whom.
pub proof fn law_retraction_shows(
    s: StoreV,
    id: Seq<char>,
    reason: Seq<char>,
    author: Seq<char>,
    ts: i64,
)
    ensures
        retraction(s, id, reason, author, ts) is Ok <==> !blank(reason) && s.get(id) is Some,
        retraction(s, id, reason, author, ts) is Ok ==> ({
            let t = retraction(s, id, reason, author, ts)->Ok_0;
            let m = s.get(id)->0;
            let n = t.get(id)->0;
            let e = t.events.last();
            &&& t.get(id) is Some && n.lifecycle == "retracted"@ && !n.is_active && n.updated_at
                == ts
            &&& n.id == m.id && n.type_ == m.type_ && n.name == m.name && n.description
                == m.description && n.content == m.content && n.tags == m.tags && n.scope
                == m.scope && n.cwd == m.cwd && n.source == m.source
            &&& n.superseded_by == m.superseded_by && n.created_at == m.created_at && n.author
                == m.author && n.valid_to == m.valid_to
            &&& t.edges == s.edges.push(
                EdgeV {
                    old_id: id,
                    new_id: None,
                    kind: "retracts"@,
                    reason,
                    confidence: Rank { key: ONE_KEY },
                    actor: author,
                    created_at: ts,
                },
            )
            &&& t.events.len() == s.events.len() + 1 && e.action == "retract"@ && e.memory_id == id
                && e.reason == reason && e.ts == ts && e.before_json == Some(snapshot(m))
                && e.after_json == Some(snapshot(n))
        }),
{
    lemma_position(s.memories, id);
    match position(s.memories, id) {
        Some(i) => {
            lemma_put(
                s.memories,
                i,
                MemoryV {
                    lifecycle: "retracted"@,
                    is_active: false,
                    updated_at: ts,
                    ..s.memories[i]
                },
            );
        },
        None => {},
    }
}

/// A suspected conflict that is queued is open and says what was suspected; a
/// pair that was queued before is not queued again.
pub proof fn law_queue_holds_the_pair_once(
    s: StoreV,
    old_id: Seq<char>,
    new_id: Seq<char>,
    relation: Seq<char>,
    confidence: Rank,
    rationale: Seq<char>,
    ts: i64,
)
    ensures
        ({
            let t = queued(s, old_id, new_id, relation, confidence, rationale, ts);
            let before = exists|i: int|
                0 <= i < s.conflicts.len() && (#[trigger] s.conflicts[i]).old_id == old_id
                    && s.conflicts[i].new_id == new_id;
            &&& before ==> t == s
            &&& !before ==> {
                let c = t.conflicts.last();
                &&& t.conflicts.len() == s.conflicts.len() + 1 && t.conflicts.drop_last()
                    == s.conflicts
                &&& c.old_id == old_id && c.new_id == new_id && c.relation == relation
                    && c.confidence == Some(confidence) && c.rationale == rationale && c.status
                    == "open"@ && c.created_at == ts
                &&& c.id == s.next_conflict as i64 && t.next_conflict == s.next_conflict + 1
            }
            &&& t.memories == s.memories && t.edges == s.edges && t.events == s.events && t.topics
                == s.topics
        }),
{
    let t = queued(s, old_id, new_id, relation, confidence, rationale, ts);
    if !is_queued(s.conflicts, old_id, new_id) {
        assert(t.conflicts.drop_last() =~= s.conflicts);
    }
}

/// The open conflict with a number is open and has it; where none is found, none
/// is.
proof fn lemma_open_conflict(cs: Seq<ConflictV>, id: i64)
    ensures
        match open_conflict(cs, id) {
            Some(i) => 0 <= i < cs.len() && cs[i].id == id && cs[i].status == "open"@,
            None => forall|i: int|
                0 <= i < cs.len() ==> !((#[trigger] cs[i]).id == id && cs[i].status == "open"@),
        },
    decreases cs.len(),
{
    if cs.len() > 0 {
        let init = cs.drop_last();
        lemma_open_conflict(init, id);
        if open_conflict(init, id) is None && open_conflict(cs, id) is None {
            assert forall|i: int| 0 <= i < cs.len() implies !((#[trigger] cs[i]).id == id
                && cs[i].status == "open"@) by {
                if i < init.len() {
                    assert(init[i] == cs[i]);
                }
            }
        }
    }
}

/// Dismissing is accepted exactly of an open conflict's number, settles that one
/// conflict as dismissed, and leaves every other and every memory as it was.
pub proof fn law_dismissal_closes_one(
    s: StoreV,
    row: i64,
    reason: Seq<char>,
    author: Seq<char>,
    ts: i64,
)
    ensures
        dismissal(s, row, reason, author, ts) is Ok <==> exists|i: int|
            0 <= i < s.conflicts.len() && (#[trigger] s.conflicts[i]).id == row
                && s.conflicts[i].status == "open"@,
        dismissal(s, row, reason, author, ts) is Ok ==> ({
            let t = dismissal(s, row, reason, author, ts)->Ok_0;
            &&& t.memories == s.memories && t.edges == s.edges && t.topics == s.topics
            &&& t.conflicts.len() == s.conflicts.len()
            &&& exists|i: int|
                #![trigger s.conflicts[i]]
                0 <= i < s.conflicts.len() && s.conflicts[i].id == row && s.conflicts[i].status
                    == "open"@ && t.conflicts == s.conflicts.update(
                    i,
                    ConflictV { status: "dismissed"@, ..s.conflicts[i] },
                )
            &&& t.events.len() == s.events.len() + 1 && t.events.last().action
                == "conflict-dismiss"@ && t.events.last().reason == reason && t.events.last().actor
                == author
        }),
{
    lemma_open_conflict(s.conflicts, row);
    match open_conflict(s.conflicts, row) {
        Some(i) => {
            assert(s.conflicts[i].id == row);
        },
        None => {},
    }
}

/// How sure a verdict is, within zero and one.
pub open spec fn sureness(v: Verdict) -> int {
    if v.confidence.key < 0 {
        0
    } else if v.confidence.key > ONE_KEY {
        ONE_KEY as int
    } else {
        v.confidence.key as int
    }
}

/// Outside a sweep a verdict that a memory in force is corrected or updated
/// replaces it exactly where the model is as sure as asked; where it is only sure
/// enough to ask, the pair is queued and the memory stays; below that nothing
/// happens.
pub proof fn law_sure_verdict_supersedes(
    st: StoreV,
    new_id: Seq<char>,
    cs: Seq<CandidateV>,
    v: Verdict,
    auto: Rank,
    queue: Rank,
    ts: i64,
)
    requires
        1 <= v.candidate <= cs.len(),
        cs[v.candidate - 1].lifecycle == "active"@,
        v.relation@ == "corrects"@ || v.relation@ == "updates"@,
    ensures
        ({
            let c = cs[v.candidate - 1];
            let a = verdict_applied(st, new_id, cs, v, auto, queue, false, ts);
            &&& sureness(v) >= auto.key ==> {
                &&& a.error is None <==> c.id != new_id && st.get(c.id) is Some && st.get(
                    new_id,
                ) is Some
                &&& a.error is None ==> {
                    &&& a.store.get(c.id) is Some && a.store.get(c.id)->0.lifecycle
                        == "superseded"@ && a.store.get(c.id)->0.superseded_by == Some(new_id)
                        && a.store.get(c.id)->0.content == st.get(c.id)->0.content
                    &&& has_edge(a.store.edges, c.id, new_id)
                    &&& !has_edge(st.edges, c.id, new_id) ==> a.store.edges.last().kind
                        == v.relation@ && a.store.edges.last().actor == "adjudicator"@
                        && a.store.edges.last().confidence.key == sureness(v)
                        && a.store.edges.last().reason == v.rationale@
                    &&& a.actions == seq![
                        c.id + " "@ + v.relation@ + "-edge (conf "@ + v.shown@ + ")"@,
                    ]
                }
                &&& a.error is Some ==> a.store == st && a.actions.len() == 0
            }
            &&& queue.key <= sureness(v) < auto.key ==> {
                &&& a.error is None && a.store.memories == st.memories && a.store.edges == st.edges
                    && a.store.events == st.events
                &&& is_queued(a.store.conflicts, c.id, new_id)
                &&& !is_queued(st.conflicts, c.id, new_id) ==> a.store.conflicts.last().relation
                    == v.relation@ && a.store.conflicts.last().status == "open"@
                    && a.store.conflicts.last().rationale == v.rationale@
                &&& a.actions == seq![
                    c.id + " queued ("@ + v.relation@ + ", conf "@ + v.shown@ + ")"@,
                ]
            }
            &&& sureness(v) < queue.key && sureness(v) < auto.key ==> a.error is None && a.store
                == st && a.actions.len() == 0
        }),
{
    let c = cs[v.candidate - 1];
    let conf = Rank { key: sureness(v) as i64 };
    law_supersession_shows(
        st,
        c.id,
        new_id,
        v.relation@,
        v.rationale@,
        conf,
        "adjudicator"@,
        ts,
    );
    let a = verdict_applied(st, new_id, cs, v, auto, queue, false, ts);
    if sureness(v) >= auto.key && a.error is None {
        if a.store.edges != st.edges {
            let k = st.edges.len() as int;
            assert(a.store.edges[k].old_id == c.id && a.store.edges[k].new_id == Some(new_id));
        }
    }
    if queue.key <= sureness(v) < auto.key {
        law_queue_holds_the_pair_once(
            st,
            c.id,
            new_id,
            v.relation@,
            conf,
            v.rationale@,
            ts,
        );
        if !is_queued(st.conflicts, c.id, new_id) {
            let k = st.conflicts.len() as int;
            assert(a.store.conflicts[k].old_id == c.id && a.store.conflicts[k].new_id == new_id);
        }
    }
}

/// In a sweep an update never replaces a memory, however sure the model is: from
/// the lower threshold on the pair is queued. A correction is treated as outside
/// a sweep.
pub proof fn law_sweep_only_asks_about_updates(
    st: StoreV,
    new_id: Seq<char>,
    cs: Seq<CandidateV>,
    v: Verdict,
    auto: Rank,
    queue: Rank,
    ts: i64,
)
    requires
        1 <= v.candidate <= cs.len(),
        cs[v.candidate - 1].lifecycle == "active"@,
    ensures
        ({
            let c = cs[v.candidate - 1];
            let a = verdict_applied(st, new_id, cs, v, auto, queue, true, ts);
            &&& v.relation@ == "updates"@ ==> {
                &&& a.error is None && a.store.memories == st.memories && a.store.edges == st.edges
                &&& sureness(v) >= queue.key ==> is_queued(a.store.conflicts, c.id, new_id)
                    && a.actions.len() == 1
                &&& sureness(v) < queue.key ==> a.store == st && a.actions.len() == 0
            }
            &&& v.relation@ == "corrects"@ ==> a == verdict_applied(
                st,
                new_id,
                cs,
                v,
                auto,
                queue,
                false,
                ts,
            )
        }),
{
    reveal_strlit("updates");
    reveal_strlit("corrects");
    assert("updates"@.len() == 7 && "corrects"@.len() == 8);
    let c = cs[v.candidate - 1];
    let a = verdict_applied(st, new_id, cs, v, auto, queue, true, ts);
    if v.relation@ == "updates"@ && sureness(v) >= queue.key {
        if !is_queued(st.conflicts, c.id, new_id) {
            let k = st.conflicts.len() as int;
            assert(a.store.conflicts[k].old_id == c.id && a.store.conflicts[k].new_id == new_id);
        }
    }
}

/// Only corrections and updates can replace a memory, and only one in force. A
/// duplicate is asked about at most, any other relation does nothing, and a
/// memory set aside before is flagged whatever the confidence.
pub proof fn law_other_verdicts_replace_nothing(
    st: StoreV,
    new_id: Seq<char>,
    cs: Seq<CandidateV>,
    v: Verdict,
    auto: Rank,
    queue: Rank,
    only: bool,
    ts: i64,
)
    ensures
        ({
            let a = verdict_applied(st, new_id, cs, v, auto, queue, only, ts);
            let known = 1 <= v.candidate <= cs.len();
            let c = cs[v.candidate - 1];
            let changes = v.relation@ == "corrects"@ || v.relation@ == "updates"@;
            &&& !known ==> a.store == st && a.error is None && a.actions.len() == 0
            &&& !changes || (known && c.lifecycle != "active"@) ==> a.error is None
                && a.store.memories == st.memories && a.store.edges == st.edges
            &&& known && changes && c.lifecycle != "active"@ ==> is_queued(
                a.store.conflicts,
                c.id,
                new_id,
            ) && a.actions == seq!["zombie-flag "@ + c.id + " ("@ + v.relation@ + ")"@]
            &&& known && v.relation@ == "duplicate"@ && sureness(v) >= queue.key ==> is_queued(
                a.store.conflicts,
                c.id,
                new_id,
            ) && a.actions.len() == 1
            &&& !changes && (v.relation@ != "duplicate"@ || sureness(v) < queue.key) ==> a.store
                == st && a.actions.len() == 0
        }),
{
    reveal_strlit("duplicate");
    reveal_strlit("updates");
    reveal_strlit("corrects");
    assert("updates"@.len() == 7 && "corrects"@.len() == 8 && "duplicate"@.len() == 9);
    let a = verdict_applied(st, new_id, cs, v, auto, queue, only, ts);
    if 1 <= v.candidate <= cs.len() {
        let c = cs[v.candidate - 1];
        if a.store.memories == st.memories && a.actions.len() > 0 {
            if !is_queued(st.conflicts, c.id, new_id) {
                let k = st.conflicts.len() as int;
                let t = queued(
                    st,
                    c.id,
                    new_id,
                    v.relation@,
                    Rank { key: sureness(v) as i64 },
                    v.rationale@,
                    ts,
                );
                assert(t.conflicts[k].old_id == c.id && t.conflicts[k].new_id == new_id);
            }
        }
    }
}

/// Verdicts are applied one behind the other: what a list of them does is what
/// its second part does to what its first part left, up to the first error.
pub proof fn law_verdicts_compose(
    st: StoreV,
    new_id: Seq<char>,
    cs: Seq<CandidateV>,
    a: Seq<Verdict>,
    b: Seq<Verdict>,
    auto: Rank,
    queue: Rank,
    only: bool,
    ts: i64,
)
    ensures
        ({
            let x = verdicts_applied(st, new_id, cs, a, auto, queue, only, ts);
            let y = verdicts_applied(x.store, new_id, cs, b, auto, queue, only, ts);
            let z = verdicts_applied(st, new_id, cs, a + b, auto, queue, only, ts);
            &&& x.error is Some ==> z == x
            &&& x.error is None ==> z.store == y.store && z.error == y.error && z.actions
                == x.actions + y.actions
        }),
        verdicts_applied(st, new_id, cs, Seq::empty(), auto, queue, only, ts).store == st,
    decreases b.len(),
{
    if b.len() == 0 {
        assert(a + b =~= a);
        let x = verdicts_applied(st, new_id, cs, a, auto, queue, only, ts);
        assert(x.actions + Seq::<Seq<char>>::empty() =~= x.actions);
    } else {
        law_verdicts_compose(st, new_id, cs, a, b.drop_last(), auto, queue, only, ts);
        assert((a + b).drop_last() =~= a + b.drop_last());
        assert((a + b).last() == b.last());
        let x = verdicts_applied(st, new_id, cs, a, auto, queue, only, ts);
        let p = verdicts_applied(x.store, new_id, cs, b.drop_last(), auto, queue, only, ts);
        let q = verdict_applied(p.store, new_id, cs, b.last(), auto, queue, only, ts);
        assert(x.actions + (p.actions + q.actions) =~= x.actions + p.actions + q.actions);
    }
}

/// A list of one verdict does what the verdict does.
pub proof fn law_one_verdict_is_applied(
    st: StoreV,
    new_id: Seq<char>,
    cs: Seq<CandidateV>,
    v: Verdict,
    auto: Rank,
    queue: Rank,
    only: bool,
    ts: i64,
)
    ensures
        verdicts_applied(st, new_id, cs, seq![v], auto, queue, only, ts) == verdict_applied(
            st,
            new_id,
            cs,
            v,
            auto,
            queue,
            only,
            ts,
        ),
{
    let one = seq![v];
    assert(one.drop_last() =~= Seq::<Verdict>::empty());
    let q = verdict_applied(st, new_id, cs, v, auto, queue, only, ts);
    assert(Seq::<Seq<char>>::empty() + q.actions =~= q.actions);
    assert(verdicts_applied(st, new_id, cs, one.drop_last(), auto, queue, only, ts)
        == (AppliedV { store: st, actions: Seq::empty(), error: None }));
}

/// A trial says what would be done exactly where something is worth saying: an
/// edge for a sure correction, the queue for what else is sure enough, and it
/// names the candidate.
pub proof fn law_trial_says_what_it_would_do(
    v: Verdict,
    cs: Seq<CandidateV>,
    auto: Rank,
    queue: Rank,
)
    ensures
        ({
            let p = proposal(v, cs, auto, queue);
            let known = 1 <= v.candidate <= cs.len();
            let tail = cs[v.candidate - 1].id + " ("@ + v.relation@ + ", conf "@ + v.shown_raw@
                + ": "@ + v.rationale@ + ")"@;
            let edge = v.relation@ == "corrects"@ && v.confidence.key >= auto.key;
            let ask = (v.relation@ == "corrects"@ || v.relation@ == "updates"@ || v.relation@
                == "duplicate"@) && v.confidence.key >= queue.key;
            &&& p is Some <==> known && (edge || ask)
            &&& known && edge ==> p == Some("would-edge "@ + tail)
            &&& known && !edge && ask ==> p == Some("would-queue "@ + tail)
        }),
{
}

/// Every id that is given is nominated once, but for the new memory's own; no
/// other is.
pub proof fn law_nominees_are_the_others(ids: Seq<Seq<char>>, new_id: Seq<char>)
    ensures
        forall|x: Seq<char>| #[trigger]
            nominated(ids, new_id).contains(x) <==> ids.contains(x) && x != new_id,
        forall|i: int, j: int|
            0 <= i < j < nominated(ids, new_id).len() ==> (#[trigger] nominated(ids, new_id)[i])
                != (#[trigger] nominated(ids, new_id)[j]),
    decreases ids.len(),
{
    let r = nominated(ids, new_id);
    if ids.len() > 0 {
        let prev = ids.drop_last();
        let y = ids.last();
        law_nominees_are_the_others(prev, new_id);
        let init = nominated(prev, new_id);
        assert(listed(init, y) == init.contains(y)) by {
            if init.contains(y) {
                let k = choose|k: int| 0 <= k < init.len() && init[k] == y;
                assert(init[k] == y);
            }
        }
        assert forall|x: Seq<char>| #[trigger] r.contains(x) <==> ids.contains(x) && x
            != new_id by {
            if r.contains(x) {
                let k = choose|k: int| 0 <= k < r.len() && r[k] == x;
                if k < init.len() {
                    assert(init[k] == x);
                    assert(init.contains(x));
                    let j = choose|j: int| 0 <= j < prev.len() && prev[j] == x;
                    assert(ids[j] == x);
                } else {
                    assert(ids[ids.len() - 1] == x);
                }
            }
            if ids.contains(x) && x != new_id {
                let j = choose|j: int| 0 <= j < ids.len() && ids[j] == x;
                if j < prev.len() {
                    assert(prev[j] == x);
                }
                if prev.contains(x) {
                    assert(init.contains(x));
                    let k = choose|k: int| 0 <= k < init.len() && init[k] == x;
                    assert(r[k] == x);
                } else {
                    assert(x == y);
                    assert(!init.contains(x));
                    assert(r[r.len() - 1] == x);
                }
            }
        }
        assert forall|i: int, j: int| 0 <= i < j < r.len() implies (#[trigger] r[i]) != (
        #[trigger] r[j]) by {
            assert(r[i] == init[i]);
            if j < init.len() {
                assert(r[j] == init[j]);
            } else {
                assert(init.contains(init[i]));
            }
        }
    } else {
        assert forall|x: Seq<char>| #[trigger] r.contains(x) <==> ids.contains(x) && x
            != new_id by {}
    }
}

/// A model is shown stored memories as they are: every one shown has the words
/// and the lifecycle of the stored memory with its id.
pub proof fn law_shown_is_stored(s: StoreV, ids: Seq<Seq<char>>)
    ensures
        forall|i: int|
            0 <= i < loaded(s, ids).len() ==> {
                let c = #[trigger] loaded(s, ids)[i];
                let m = s.get(c.id);
                &&& ids.contains(c.id)
                &&& m is Some && c.name == m->0.name && c.description == m->0.description
                    && c.content == m->0.content && c.lifecycle == m->0.lifecycle
            },
    decreases ids.len(),
{
    if ids.len() > 0 {
        let prev = ids.drop_last();
        law_shown_is_stored(s, prev);
        let init = loaded(s, prev);
        let r = loaded(s, ids);
        lemma_position(s.memories, ids.last());
        assert forall|i: int| 0 <= i < r.len() implies {
            let c = #[trigger] r[i];
            let m = s.get(c.id);
            &&& ids.contains(c.id)
            &&& m is Some && c.name == m->0.name && c.description == m->0.description && c.content
                == m->0.content && c.lifecycle == m->0.lifecycle
        } by {
            if i < init.len() {
                assert(r[i] == init[i]);
                let j = choose|j: int| 0 <= j < prev.len() && prev[j] == r[i].id;
                assert(ids[j] == r[i].id);
            } else {
                assert(ids[ids.len() - 1] == r[i].id);
            }
        }
    }
}

/// A text that says one of the marking words, in whatever case, is marked, and
/// nothing else is.
pub proof fn law_marked_says_a_marking_word(m: MemoryV)
    ensures
        marked(m) <==> {
            ||| says(m, "corrected"@)
            ||| says(m, "supersedes"@)
            ||| says(m, "superseded"@)
            ||| says(m, "obsolete"@)
            ||| says(m, "deprecated"@)
            ||| says(m, "no longer true"@)
        },
{
    let p = prose_markers();
    assert(p[0] == "corrected"@ && p[1] == "supersedes"@ && p[2] == "superseded"@ && p[3]
        == "obsolete"@ && p[4] == "deprecated"@ && p[5] == "no longer true"@);
    assert(p.len() == 6);
    if marked(m) {
        let i = choose|i: int|
            0 <= i < p.len() && (contains(ascii_lower(m.content), #[trigger] p[i]) || contains(
                ascii_lower(m.name),
                p[i],
            ));
        assert(i == 0 || i == 1 || i == 2 || i == 3 || i == 4 || i == 5);
    }
}

/// Whether a memory says a word in its text or name, in whatever case.
pub open spec fn says(m: MemoryV, word: Seq<char>) -> bool {
    contains(ascii_lower(m.content), word) || contains(ascii_lower(m.name), word)
}

/// A sweep goes over memories in force alone, over marked ones alone where that
/// is asked, and over none that was swept unless forced; of those it leaves out
/// none.
pub proof fn law_sweep_takes_what_is_in_force(
    ms: Seq<MemoryV>,
    prose_only: bool,
    force: bool,
    swept: Seq<Seq<char>>,
)
    ensures
        ({
            let at = swept_positions(ms, prose_only, force, swept);
            &&& at.len() <= ms.len()
            &&& forall|k: int|
                0 <= k < at.len() ==> {
                    let m = ms[#[trigger] at[k]];
                    &&& 0 <= at[k] < ms.len()
                    &&& m.is_active && m.lifecycle == "active"@
                    &&& prose_only ==> marked(m)
                    &&& swept.contains(m.id) ==> force
                }
            &&& forall|x: int|
                0 <= x < ms.len() && (#[trigger] ms[x]).is_active && ms[x].lifecycle == "active"@
                    && (prose_only ==> marked(ms[x])) && (swept.contains(ms[x].id) ==> force)
                    ==> at.contains(x)
            &&& forall|j: int, k: int|
                0 <= j < k < at.len() ==> (#[trigger] at[j]) < (#[trigger] at[k])
        }),
    decreases ms.len(),
{
    if ms.len() > 0 {
        let prev = ms.drop_last();
        law_sweep_takes_what_is_in_force(prev, prose_only, force, swept);
        let init = swept_positions(prev, prose_only, force, swept);
        let at = swept_positions(ms, prose_only, force, swept);
        let last = ms.last();
        assert(listed(swept, last.id) == swept.contains(last.id)) by {
            if swept.contains(last.id) {
                let k = choose|k: int| 0 <= k < swept.len() && swept[k] == last.id;
                assert(swept[k] == last.id);
            }
        }
        assert forall|k: int| 0 <= k < at.len() implies {
            let m = ms[#[trigger] at[k]];
            &&& 0 <= at[k] < ms.len()
            &&& m.is_active && m.lifecycle == "active"@
            &&& prose_only ==> marked(m)
            &&& swept.contains(m.id) ==> force
        } by {
            if k < init.len() {
                assert(at[k] == init[k]);
                assert(prev[init[k]] == ms[init[k]]);
            }
        }
        assert forall|x: int|
            0 <= x < ms.len() && (#[trigger] ms[x]).is_active && ms[x].lifecycle == "active"@ && (
            prose_only ==> marked(ms[x])) && (swept.contains(ms[x].id)
                ==> force) implies at.contains(x) by {
            if x < prev.len() {
                assert(prev[x] == ms[x]);
                let k = choose|k: int| 0 <= k < init.len() && init[k] == x;
                assert(at[k] == x);
            } else {
                assert(at[at.len() - 1] == x);
            }
        }
        assert forall|j: int, k: int| 0 <= j < k < at.len() implies (#[trigger] at[j]) < (
        #[trigger] at[k]) by {
            assert(at[j] == init[j]);
            if k < init.len() {
                assert(at[k] == init[k]);
            }
        }
    }
}

/// A sweep goes over marked memories before others and over the newer before the
/// older among each, whatever the limit cuts off.
pub proof fn law_sweep_order(ms: Seq<MemoryV>, at: Seq<int>, order: Seq<usize>, i: int, j: int)
    requires
        is_order(sweep_keys(ms, at), order),
        0 <= i < j < order.len(),
    ensures
        ({
            let a = ms[at[order[i] as int]];
            let b = ms[at[order[j] as int]];
            (marked(a) && !marked(b)) || (marked(a) == marked(b) && a.updated_at >= b.updated_at)
        }),
{
    let keys = sweep_keys(ms, at);
    assert(order[i] < keys.len() && order[j] < keys.len());
    assert(crate::sort::ahead(keys, order[i] as int, order[j] as int));
    assert(keys[order[i] as int] == sweep_key(ms[at[order[i] as int]]));
    assert(keys[order[j] as int] == sweep_key(ms[at[order[j] as int]]));
}

/// A verification is logged as one, with its note and the memory before and after.
pub proof fn law_verification_is_logged(s: StoreV, id: Seq<char>, note: Seq<char>, ts: i64)
    requires
        s.get(id) is Some,
    ensures
        ({
            let r = crate::supersede::verification(s, id, note, ts);
            let e = r->Ok_0.events.last();
            &&& r is Ok
            &&& r->Ok_0.events.len() == s.events.len() + 1
            &&& e.actor == "agent"@ && e.action == "verify"@ && e.memory_id == id && e.ts == ts
            &&& e.reason == note
            &&& e.before_json == Some(snapshot(s.get(id)->0))
        }),
{
    lemma_position(s.memories, id);
}

} // verus!
