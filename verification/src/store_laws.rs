//! What every operation on the store keeps, and what one operation undoes of
//! another.
use crate::edit::{
    addition, change, identity_tag, in_kernel, member_tags, membership, new_memory, storable,
    tag_list, with_entry_taken, with_fields, without, AddV, UpdateV,
};
use crate::kx::{IngestAction, KxEntryV};
use crate::rows::MemoryV;
use crate::server::trimmed_pieces;
use crate::settings::SettingsV;
use crate::store::{
    archived, lemma_position, lemma_position_is, lifecycle_set, lifecycle_step, position, restored,
    topics_of, trashed, without_topics, EdgeV, Rank, StoreV, TopicV,
};
use crate::supersede::{
    about_memory, about_pair, dismissal, edges_with, has_edge, queued, retraction, superseded, supersession,
    verification,
};
use crate::text::{blank, drop_white, joined, listed, skip_white, split_on, trimmed};
use vstd::prelude::*;

verus! {

/// Whether a memory in force has an id.
pub open spec fn has_in_force(ms: Seq<MemoryV>, id: Seq<char>) -> bool {
    exists|j: int| 0 <= j < ms.len() && (#[trigger] ms[j]).id == id && ms[j].in_force()
}

/// Whether every entry of the topic index belongs to a memory in force.
pub open spec fn index_sound(s: StoreV) -> bool {
    forall|i: int|
        0 <= i < s.topics.len() ==> has_in_force(s.memories, (#[trigger] s.topics[i]).memory_id)
}

/// Whether an edge is one from a memory to another.
pub open spec fn joins(e: EdgeV, old_id: Seq<char>, new_id: Seq<char>) -> bool {
    e.old_id == old_id && e.new_id == Some(new_id)
}

/// Whether no two edges join the same pair.
pub open spec fn edges_unique(es: Seq<EdgeV>) -> bool {
    forall|i: int, j: int|
        0 <= i < j < es.len() && (#[trigger] es[i]).new_id is Some ==> es[i].old_id
            != (#[trigger] es[j]).old_id || es[i].new_id != es[j].new_id
}

/// Whether exactly one edge joins a pair.
pub open spec fn one_edge(es: Seq<EdgeV>, old_id: Seq<char>, new_id: Seq<char>) -> bool {
    exists|i: int|
        0 <= i < es.len() && joins(#[trigger] es[i], old_id, new_id) && forall|j: int|
            0 <= j < es.len() && joins(#[trigger] es[j], old_id, new_id) ==> j == i
}

/// The store's invariant: ids are unique, the topic index holds nothing but
/// memories in force, and a pair is joined by one edge at most.
pub open spec fn sound(s: StoreV) -> bool {
    s.wf() && index_sound(s) && edges_unique(s.edges)
}

/// Adding an edge keeps the edges unique.
proof fn lemma_edges_with(es: Seq<EdgeV>, e: EdgeV)
    requires
        edges_unique(es),
    ensures
        edges_unique(edges_with(es, e)),
{
    let fs = edges_with(es, e);
    assert forall|i: int, j: int| 0 <= i < j < fs.len() && (#[trigger] fs[i]).new_id is Some implies
        fs[i].old_id != (#[trigger] fs[j]).old_id || fs[i].new_id != fs[j].new_id by {
        assert(fs[i] == es[i]);
        if j < es.len() {
            assert(fs[j] == es[j]);
        } else {
            assert(fs[j] == e);
        }
    }
}

/// Of unique edges one at most joins a pair.
proof fn lemma_one_edge(es: Seq<EdgeV>, old_id: Seq<char>, new_id: Seq<char>)
    requires
        edges_unique(es),
        has_edge(es, old_id, new_id),
    ensures
        one_edge(es, old_id, new_id),
{
    let i = choose|i: int|
        0 <= i < es.len() && (#[trigger] es[i]).old_id == old_id && es[i].new_id == Some(new_id);
    assert(joins(es[i], old_id, new_id));
    assert forall|j: int| 0 <= j < es.len() && joins(#[trigger] es[j], old_id, new_id) implies j
        == i by {
        if j < i {
            assert(es[j].new_id is Some);
        } else if i < j {
            assert(es[i].new_id is Some);
        }
    }
}

/// A store without anything in it meets the invariant.
pub proof fn law_empty_store_is_sound(s: StoreV)
    requires
        s.memories.len() == 0,
        s.topics.len() == 0,
        s.edges.len() == 0,
    ensures
        sound(s),
{
}

/// Whether the log was only added to.
pub open spec fn log_extends(a: StoreV, b: StoreV) -> bool {
    a.events.len() <= b.events.len() && b.events.take(a.events.len() as int) == a.events
}

/// Whether all memories but one are as they were.
pub open spec fn others_kept(a: StoreV, b: StoreV, id: Seq<char>) -> bool {
    forall|x: Seq<char>| x != id ==> #[trigger] b.get(x) == a.get(x)
}

/// A kept index entry was there and belongs to another memory.
proof fn lemma_without_topics(ts: Seq<TopicV>, id: Seq<char>, k: int)
    requires
        0 <= k < without_topics(ts, id).len(),
    ensures
        without_topics(ts, id)[k].memory_id != id,
        exists|i: int| 0 <= i < ts.len() && #[trigger] ts[i] == without_topics(ts, id)[k],
    decreases ts.len(),
{
    let init = ts.drop_last();
    if k < without_topics(init, id).len() {
        lemma_without_topics(init, id, k);
        let i = choose|i: int| 0 <= i < init.len() && #[trigger] init[i] == without_topics(
            init,
            id,
        )[k];
        assert(ts[i] == init[i]);
        assert(without_topics(ts, id)[k] == without_topics(init, id)[k]);
    } else {
        assert(ts[ts.len() - 1] == without_topics(ts, id)[k]);
    }
}

/// Replacing a memory by one with the same id keeps ids and other memories.
proof fn lemma_replaced(s: StoreV, i: int, m: MemoryV)
    requires
        s.wf(),
        0 <= i < s.memories.len(),
        m.id == s.memories[i].id,
    ensures
        s.with_memory(i, m).wf(),
        s.with_memory(i, m).get(m.id) == Some(m),
        position(s.with_memory(i, m).memories, m.id) == Some(i),
        forall|x: Seq<char>|
            #[trigger] position(s.with_memory(i, m).memories, x) == position(s.memories, x),
        others_kept(s, s.with_memory(i, m), m.id),
{
    let t = s.with_memory(i, m);
    assert forall|a: int, b: int| 0 <= a < b < t.memories.len() implies (
    #[trigger] t.memories[a]).id != (#[trigger] t.memories[b]).id by {
        assert(s.memories[a].id != s.memories[b].id);
    }
    assert forall|x: Seq<char>| #[trigger] position(t.memories, x) == position(s.memories, x) by {
        lemma_position(s.memories, x);
        lemma_position(t.memories, x);
        match position(s.memories, x) {
            Some(k) => {
                assert forall|a: int| 0 <= a < k implies (#[trigger] t.memories[a]).id != x by {
                    assert(s.memories[a].id != x);
                }
                lemma_position_is(t.memories, x, k);
            },
            None => {
                match position(t.memories, x) {
                    Some(k) => {
                        assert(s.memories[k].id == x);
                    },
                    None => {},
                }
            },
        }
    }
    lemma_unique(s, i);
    assert forall|x: Seq<char>| x != m.id implies #[trigger] t.get(x) == s.get(x) by {
        assert(position(t.memories, x) == position(s.memories, x));
        lemma_position(s.memories, x);
    }
}

/// A memory stands at the position of its id.
proof fn lemma_unique(s: StoreV, i: int)
    requires
        s.wf(),
        0 <= i < s.memories.len(),
    ensures
        position(s.memories, s.memories[i].id) == Some(i),
{
    assert forall|k: int| 0 <= k < i implies (#[trigger] s.memories[k]).id
        != s.memories[i].id by {}
    lemma_position_is(s.memories, s.memories[i].id, i);
}

/// Replacing a memory and rebuilding its index entries keeps the index sound.
proof fn lemma_reindexed_sound(s: StoreV, i: int, m: MemoryV)
    requires
        sound(s),
        0 <= i < s.memories.len(),
        m.id == s.memories[i].id,
    ensures
        sound(s.with_memory(i, m).reindexed(m)),
{
    lemma_replaced(s, i, m);
    let t = s.with_memory(i, m).reindexed(m);
    let kept = without_topics(s.topics, m.id);
    assert(t.wf()) by {
        assert(t.memories == s.with_memory(i, m).memories);
    }
    assert forall|k: int| 0 <= k < t.topics.len() implies has_in_force(
        t.memories,
        (#[trigger] t.topics[k]).memory_id,
    ) by {
        if k < kept.len() {
            lemma_without_topics(s.topics, m.id, k);
            let a = choose|a: int| 0 <= a < s.topics.len() && #[trigger] s.topics[a] == kept[k];
            assert(has_in_force(s.memories, s.topics[a].memory_id));
            let j = choose|j: int|
                0 <= j < s.memories.len() && (#[trigger] s.memories[j]).id == s.topics[a].memory_id
                    && s.memories[j].in_force();
            assert(t.memories[j] == s.memories[j]);
            assert(t.topics[k] == kept[k]);
        } else {
            let e = topics_of(m)[k - kept.len()];
            assert(t.topics[k] == e);
            assert(m.in_force());
            assert(t.memories[i] == m);
        }
    }
}

/// Replacing a memory without changing whether it is in force keeps the index
/// sound, though it is not rebuilt.
proof fn lemma_replaced_sound(s: StoreV, i: int, m: MemoryV)
    requires
        sound(s),
        0 <= i < s.memories.len(),
        m.id == s.memories[i].id,
        s.memories[i].in_force() ==> m.in_force(),
    ensures
        sound(s.with_memory(i, m)),
{
    lemma_replaced(s, i, m);
    let t = s.with_memory(i, m);
    assert forall|k: int| 0 <= k < t.topics.len() implies has_in_force(
        t.memories,
        (#[trigger] t.topics[k]).memory_id,
    ) by {
        assert(has_in_force(s.memories, s.topics[k].memory_id));
        let j = choose|j: int|
            0 <= j < s.memories.len() && (#[trigger] s.memories[j]).id == s.topics[k].memory_id
                && s.memories[j].in_force();
        assert(t.memories[j].id == s.topics[k].memory_id && t.memories[j].in_force());
    }
}

/// A memory under a fresh id keeps the invariant.
proof fn lemma_pushed_sound(s: StoreV, m: MemoryV)
    requires
        sound(s),
        position(s.memories, m.id) is None,
    ensures
        ({
            let t = StoreV { memories: s.memories.push(m), ..s };
            sound(t) && sound(t.reindexed(m)) && t.get(m.id) == Some(m) && others_kept(s, t, m.id)
        }),
{
    let t = StoreV { memories: s.memories.push(m), ..s };
    lemma_position(s.memories, m.id);
    assert forall|a: int, b: int| 0 <= a < b < t.memories.len() implies (
    #[trigger] t.memories[a]).id != (#[trigger] t.memories[b]).id by {
        assert(t.memories[a] == s.memories[a]);
        if b < s.memories.len() {
            assert(t.memories[b] == s.memories[b]);
        }
    }
    assert forall|k: int| 0 <= k < t.topics.len() implies has_in_force(
        t.memories,
        (#[trigger] t.topics[k]).memory_id,
    ) by {
        assert(has_in_force(s.memories, s.topics[k].memory_id));
        let j = choose|j: int|
            0 <= j < s.memories.len() && (#[trigger] s.memories[j]).id == s.topics[k].memory_id
                && s.memories[j].in_force();
        assert(t.memories[j] == s.memories[j]);
    }
    assert(t.memories.drop_last() =~= s.memories);
    assert(t.memories.last() == m);
    assert(position(t.memories, m.id) == Some(s.memories.len() as int));
    assert forall|x: Seq<char>| x != m.id implies #[trigger] t.get(x) == s.get(x) by {
        lemma_position(s.memories, x);
        assert(position(t.memories, x) == position(s.memories, x));
    }
    lemma_reindexed_sound(t, s.memories.len() as int, m);
    assert(t.with_memory(s.memories.len() as int, m) == t) by {
        assert(t.memories.update(s.memories.len() as int, m) =~= t.memories);
    }
}

/// Setting a lifecycle keeps the invariant, all other memories and the log so
/// far, and touches neither edges nor conflicts.
pub proof fn law_lifecycle_keeps_the_rest(
    s: StoreV,
    id: Seq<char>,
    lifecycle: Seq<char>,
    reason: Seq<char>,
    source_report: Seq<char>,
    ts: i64,
)
    requires
        sound(s),
        lifecycle_set(s, id, lifecycle, reason, source_report, ts) is Ok,
    ensures
        ({
            let t = lifecycle_set(s, id, lifecycle, reason, source_report, ts)->Ok_0;
            sound(t) && others_kept(s, t, id) && log_extends(s, t) && t.edges == s.edges
                && t.conflicts == s.conflicts
        }),
{
    let i = position(s.memories, id)->0;
    lemma_position(s.memories, id);
    let (action, m) = lifecycle_step(s.memories[i], lifecycle, ts)->0;
    lemma_replaced(s, i, m);
    lemma_reindexed_sound(s, i, m);
    let t = lifecycle_set(s, id, lifecycle, reason, source_report, ts)->Ok_0;
    assert(t.events.take(s.events.len() as int) =~= s.events);
    assert forall|x: Seq<char>| x != id implies #[trigger] t.get(x) == s.get(x) by {
        assert(s.with_memory(i, m).get(x) == s.get(x));
    }
}

/// Restoring brings a memory back into force and forgets its successor, while
/// the edges keep that it was once superseded.
pub proof fn law_restore_brings_back(
    s: StoreV,
    id: Seq<char>,
    reason: Seq<char>,
    source_report: Seq<char>,
    ts: i64,
)
    requires
        sound(s),
        s.get(id) is Some,
    ensures
        ({
            let r = lifecycle_set(s, id, "active"@, reason, source_report, ts);
            r is Ok && r->Ok_0.get(id) is Some && r->Ok_0.get(id)->0.in_force()
                && r->Ok_0.get(id)->0.superseded_by is None && r->Ok_0.get(
                id,
            )->0.supersede_reason is None && r->Ok_0.get(id)->0.content == s.get(id)->0.content
                && r->Ok_0.edges == s.edges
        }),
{
    let i = position(s.memories, id)->0;
    lemma_position(s.memories, id);
    lemma_replaced(s, i, restored(s.memories[i], ts));
}

/// Archiving, throwing away and restoring are undone by restoring: the memory
/// is what restoring alone makes of it.
pub proof fn law_restore_undoes_archive_and_trash(m: MemoryV, t1: i64, t2: i64)
    ensures
        restored(archived(m, t1), t2) == restored(m, t2),
        restored(trashed(m, t1), t2) == restored(m, t2),
{
}

/// A supersession keeps the invariant, all other memories and the log so far.
/// The replaced memory leaves the topic index, exactly one edge joins the pair,
/// and no conflict about it stays open, whichever way round it was suspected.
pub proof fn law_supersession_settles(
    s: StoreV,
    old_id: Seq<char>,
    new_id: Seq<char>,
    kind: Seq<char>,
    reason: Seq<char>,
    confidence: Rank,
    actor: Seq<char>,
    ts: i64,
)
    requires
        sound(s),
        supersession(s, old_id, new_id, kind, reason, confidence, actor, ts) is Ok,
    ensures
        ({
            let t = supersession(s, old_id, new_id, kind, reason, confidence, actor, ts)->Ok_0;
            &&& sound(t)
            &&& others_kept(s, t, old_id)
            &&& log_extends(s, t)
            &&& t.get(old_id) is Some && t.get(old_id)->0.superseded_by == Some(new_id)
            &&& !t.get(old_id)->0.in_force()
            &&& one_edge(t.edges, old_id, new_id)
            &&& forall|i: int| 0 <= i < t.topics.len() ==> (#[trigger] t.topics[i]).memory_id
                != old_id
            &&& forall|i: int|
                0 <= i < t.conflicts.len() ==> !about_pair(
                    #[trigger] t.conflicts[i],
                    old_id,
                    new_id,
                )
        }),
{
    reveal_strlit("active");
    reveal_strlit("superseded");
    reveal_strlit("open");
    reveal_strlit("resolved");
    assert("active"@.len() == 6 && "superseded"@.len() == 10);
    assert("open"@.len() == 4 && "resolved"@.len() == 8);
    let i = position(s.memories, old_id)->0;
    lemma_position(s.memories, old_id);
    let m = superseded(s.memories[i], new_id, kind, reason, ts);
    lemma_replaced(s, i, m);
    lemma_reindexed_sound(s, i, m);
    let t = supersession(s, old_id, new_id, kind, reason, confidence, actor, ts)->Ok_0;
    let u = s.with_memory(i, m).reindexed(m);
    assert(t.memories == u.memories && t.topics == u.topics);
    assert(t.events.take(s.events.len() as int) =~= s.events);
    assert forall|x: Seq<char>| x != old_id implies #[trigger] t.get(x) == s.get(x) by {
        assert(s.with_memory(i, m).get(x) == s.get(x));
    }
    assert forall|k: int| 0 <= k < t.topics.len() implies (#[trigger] t.topics[k]).memory_id
        != old_id by {
        assert(!m.in_force());
        lemma_without_topics(s.topics, m.id, k);
    }
    let e = EdgeV {
        old_id,
        new_id: Some(new_id),
        kind,
        reason,
        confidence,
        actor,
        created_at: ts,
    };
    assert(t.edges == edges_with(s.edges, e));
    lemma_edges_with(s.edges, e);
    if !has_edge(s.edges, old_id, new_id) {
        assert(t.edges[s.edges.len() as int].old_id == old_id);
        assert(t.edges[s.edges.len() as int].new_id == Some(new_id));
    }
    lemma_one_edge(t.edges, old_id, new_id);
}

/// Asserting a supersession again adds no second edge.
pub proof fn law_supersession_edge_is_idempotent(
    s: StoreV,
    old_id: Seq<char>,
    new_id: Seq<char>,
    k1: Seq<char>,
    r1: Seq<char>,
    c1: Rank,
    a1: Seq<char>,
    t1: i64,
    k2: Seq<char>,
    r2: Seq<char>,
    c2: Rank,
    a2: Seq<char>,
    t2: i64,
)
    requires
        sound(s),
        supersession(s, old_id, new_id, k1, r1, c1, a1, t1) is Ok,
    ensures
        ({
            let t = supersession(s, old_id, new_id, k1, r1, c1, a1, t1)->Ok_0;
            let again = supersession(t, old_id, new_id, k2, r2, c2, a2, t2);
            again is Ok && again->Ok_0.edges == t.edges
        }),
{
    law_supersession_settles(s, old_id, new_id, k1, r1, c1, a1, t1);
    let t = supersession(s, old_id, new_id, k1, r1, c1, a1, t1)->Ok_0;
    assert(position(t.memories, old_id) is Some);
    assert(t.get(new_id) == s.get(new_id));
    assert(position(t.memories, new_id) is Some);
}

/// An update ends the time that the replaced memory held, once; a correction
/// leaves it as it was.
pub proof fn law_only_updates_close_validity(
    m: MemoryV,
    new_id: Seq<char>,
    kind: Seq<char>,
    reason: Seq<char>,
    ts: i64,
)
    ensures
        kind == "updates"@ && m.valid_to is None ==> superseded(
            m,
            new_id,
            kind,
            reason,
            ts,
        ).valid_to == Some(ts),
        kind != "updates"@ || m.valid_to is Some ==> superseded(
            m,
            new_id,
            kind,
            reason,
            ts,
        ).valid_to == m.valid_to,
{
}

/// A superseded memory that is restored is in force again with nothing left of
/// the supersession in it, one entry of the log says so, and the edge stays,
/// once.
pub proof fn law_restore_after_supersession(
    s: StoreV,
    old_id: Seq<char>,
    new_id: Seq<char>,
    kind: Seq<char>,
    reason: Seq<char>,
    confidence: Rank,
    actor: Seq<char>,
    ts: i64,
    reason2: Seq<char>,
    source_report: Seq<char>,
    ts2: i64,
)
    requires
        sound(s),
        supersession(s, old_id, new_id, kind, reason, confidence, actor, ts) is Ok,
    ensures
        ({
            let t = supersession(s, old_id, new_id, kind, reason, confidence, actor, ts)->Ok_0;
            let r = lifecycle_set(t, old_id, "active"@, reason2, source_report, ts2);
            let u = r->Ok_0;
            &&& r is Ok
            &&& sound(u)
            &&& u.get(old_id) == Some(restored(t.get(old_id)->0, ts2))
            &&& u.get(old_id)->0.in_force()
            &&& u.successor(old_id) is None
            &&& one_edge(u.edges, old_id, new_id)
            &&& u.events.len() == t.events.len() + 1
            &&& log_extends(t, u)
            &&& u.events.last().action == "restore"@ && u.events.last().memory_id == old_id
        }),
{
    law_supersession_settles(s, old_id, new_id, kind, reason, confidence, actor, ts);
    let t = supersession(s, old_id, new_id, kind, reason, confidence, actor, ts)->Ok_0;
    lemma_position(s.memories, old_id);
    law_restore_brings_back(t, old_id, reason2, source_report, ts2);
    law_lifecycle_keeps_the_rest(t, old_id, "active"@, reason2, source_report, ts2);
    lemma_position(t.memories, old_id);
    let i = position(t.memories, old_id)->0;
    lemma_replaced(t, i, restored(t.memories[i], ts2));
}

/// A withdrawal keeps the invariant, all other memories and the log so far. The
/// memory is in force no more and leaves the index, an edge without a successor
/// records it, and no conflict that touches it stays open.
pub proof fn law_retraction_settles(
    s: StoreV,
    id: Seq<char>,
    reason: Seq<char>,
    author: Seq<char>,
    ts: i64,
)
    requires
        sound(s),
        retraction(s, id, reason, author, ts) is Ok,
    ensures
        ({
            let t = retraction(s, id, reason, author, ts)->Ok_0;
            &&& sound(t)
            &&& others_kept(s, t, id)
            &&& log_extends(s, t)
            &&& !t.get(id)->0.in_force()
            &&& t.edges.len() == s.edges.len() + 1
            &&& t.edges.last().old_id == id && t.edges.last().new_id is None
            &&& forall|i: int| 0 <= i < t.topics.len() ==> (#[trigger] t.topics[i]).memory_id != id
            &&& forall|i: int|
                0 <= i < t.conflicts.len() ==> !about_memory(#[trigger] t.conflicts[i], id)
        }),
{
    reveal_strlit("open");
    reveal_strlit("resolved");
    assert("open"@.len() == 4 && "resolved"@.len() == 8);
    let i = position(s.memories, id)->0;
    lemma_position(s.memories, id);
    let m = MemoryV {
        lifecycle: "retracted"@,
        is_active: false,
        updated_at: ts,
        ..s.memories[i]
    };
    lemma_replaced(s, i, m);
    lemma_reindexed_sound(s, i, m);
    let t = retraction(s, id, reason, author, ts)->Ok_0;
    let u = s.with_memory(i, m).reindexed(m);
    assert(t.memories == u.memories && t.topics == u.topics);
    assert(t.events.take(s.events.len() as int) =~= s.events);
    assert forall|x: Seq<char>| x != id implies #[trigger] t.get(x) == s.get(x) by {
        assert(s.with_memory(i, m).get(x) == s.get(x));
    }
    assert forall|k: int| 0 <= k < t.topics.len() implies (#[trigger] t.topics[k]).memory_id
        != id by {
        lemma_without_topics(s.topics, m.id, k);
    }
}

/// A withdrawn memory can be restored.
pub proof fn law_retraction_is_reversible(
    s: StoreV,
    id: Seq<char>,
    reason: Seq<char>,
    author: Seq<char>,
    ts: i64,
    ts2: i64,
)
    requires
        sound(s),
        retraction(s, id, reason, author, ts) is Ok,
    ensures
        ({
            let t = retraction(s, id, reason, author, ts)->Ok_0;
            let u = lifecycle_set(t, id, "active"@, ""@, ""@, ts2);
            u is Ok && u->Ok_0.get(id) == Some(restored(s.get(id)->0, ts2))
        }),
{
    law_retraction_settles(s, id, reason, author, ts);
    let t = retraction(s, id, reason, author, ts)->Ok_0;
    let i = position(s.memories, id)->0;
    lemma_position(s.memories, id);
    let m = MemoryV {
        lifecycle: "retracted"@,
        is_active: false,
        updated_at: ts,
        ..s.memories[i]
    };
    lemma_replaced(s, i, m);
    lemma_replaced(t, i, restored(m, ts2));
}

/// A verification keeps the invariant and everything but the two times.
pub proof fn law_verification_only_stamps(s: StoreV, id: Seq<char>, note: Seq<char>, ts: i64)
    requires
        sound(s),
        s.get(id) is Some,
    ensures
        ({
            let r = verification(s, id, note, ts);
            &&& r is Ok
            &&& sound(r->Ok_0)
            &&& others_kept(s, r->Ok_0, id)
            &&& log_extends(s, r->Ok_0)
            &&& r->Ok_0.get(id) == Some(
                MemoryV { verified_at: Some(ts), updated_at: ts, ..s.get(id)->0 },
            )
            &&& r->Ok_0.topics == s.topics && r->Ok_0.edges == s.edges && r->Ok_0.conflicts
                == s.conflicts
        }),
{
    let i = position(s.memories, id)->0;
    lemma_position(s.memories, id);
    let m = MemoryV { verified_at: Some(ts), updated_at: ts, ..s.memories[i] };
    lemma_replaced(s, i, m);
    lemma_replaced_sound(s, i, m);
    let t = verification(s, id, note, ts)->Ok_0;
    assert(t.events.take(s.events.len() as int) =~= s.events);
    assert(t.memories == s.with_memory(i, m).memories);
    assert forall|x: Seq<char>| x != id implies #[trigger] t.get(x) == s.get(x) by {
        assert(s.with_memory(i, m).get(x) == s.get(x));
    }
}

/// An addition keeps the invariant, all other memories and the log so far, and
/// what it adds has some text.
pub proof fn law_addition_keeps_the_rest(
    s: StoreV,
    a: AddV,
    body: Option<Seq<char>>,
    id: Seq<char>,
    ts: i64,
    settings: SettingsV,
)
    requires
        sound(s),
        addition(s, a, body, id, ts, settings) is Ok,
    ensures
        ({
            let t = addition(s, a, body, id, ts, settings)->Ok_0;
            &&& sound(t)
            &&& others_kept(s, t, id)
            &&& log_extends(s, t)
            &&& t.get(id) is Some && !blank(t.get(id)->0.content)
            &&& t.edges == s.edges && t.conflicts == s.conflicts
        }),
{
    let m = new_memory(a, body->0, id, ts, settings);
    lemma_pushed_sound(s, m);
    let t = addition(s, a, body, id, ts, settings)->Ok_0;
    let u = StoreV { memories: s.memories.push(m), ..s };
    assert(t.events.take(s.events.len() as int) =~= s.events);
    assert(t.memories == u.memories);
    assert forall|x: Seq<char>| x != id implies #[trigger] t.get(x) == s.get(x) by {
        assert(u.get(x) == s.get(x));
    }
    assert(t.get(id) == u.get(id));
}

/// A change keeps the invariant, all other memories and the log so far, and
/// never leaves a memory without text that had some.
pub proof fn law_change_keeps_the_rest(s: StoreV, a: UpdateV, body: Option<Seq<char>>, ts: i64)
    requires
        sound(s),
        change(s, a, body, ts) is Ok,
    ensures
        ({
            let t = change(s, a, body, ts)->Ok_0;
            &&& sound(t)
            &&& others_kept(s, t, a.id)
            &&& log_extends(s, t)
            &&& !blank(s.get(a.id)->0.content) ==> !blank(t.get(a.id)->0.content)
            &&& t.edges == s.edges && t.conflicts == s.conflicts
        }),
{
    let i = position(s.memories, a.id)->0;
    lemma_position(s.memories, a.id);
    let m = with_fields(s.memories[i], a, storable(body)->Ok_0, ts);
    lemma_replaced(s, i, m);
    lemma_reindexed_sound(s, i, m);
    let t = change(s, a, body, ts)->Ok_0;
    assert(t.events.take(s.events.len() as int) =~= s.events);
    assert(t.memories == s.with_memory(i, m).memories);
    assert forall|x: Seq<char>| x != a.id implies #[trigger] t.get(x) == s.get(x) by {
        assert(s.with_memory(i, m).get(x) == s.get(x));
    }
}

/// Taking a document keeps the invariant and all other memories, logs nothing,
/// and keeps the row that the index had for it.
pub proof fn law_ingest_keeps_the_rest(
    s: StoreV,
    e: KxEntryV,
    tags: Seq<char>,
    cwd: Seq<char>,
    scope: Seq<char>,
    force: bool,
    now: i64,
)
    requires
        sound(s),
    ensures
        ({
            let (action, t) = with_entry_taken(s, e, tags, cwd, scope, force, now);
            &&& sound(t)
            &&& others_kept(s, t, e.id)
            &&& t.events == s.events
            &&& t.get(e.id) is Some
            &&& action == IngestAction::Skipped ==> t == s
            &&& action == IngestAction::Updated ==> t.memories.len() == s.memories.len() && t.get(
                e.id,
            )->0.created_at == s.get(e.id)->0.created_at
        }),
{
    lemma_position(s.memories, e.id);
    match position(s.memories, e.id) {
        None => {
            lemma_pushed_sound(s, crate::edit::indexed(e, tags, cwd, scope, now));
        },
        Some(i) => {
            let m = crate::edit::reindexed_entry(s.memories[i], e, tags, cwd, scope, now);
            lemma_replaced(s, i, m);
            lemma_replaced_sound(s, i, m);
        },
    }
}

/// A document that has not changed is taken once: taking it again changes
/// nothing unless forced.
pub proof fn law_ingest_is_idempotent(
    s: StoreV,
    e: KxEntryV,
    tags: Seq<char>,
    cwd: Seq<char>,
    scope: Seq<char>,
    force: bool,
    t1: i64,
    t2: i64,
)
    requires
        sound(s),
    ensures
        ({
            let t = with_entry_taken(s, e, tags, cwd, scope, force, t1).1;
            with_entry_taken(t, e, tags, cwd, scope, false, t2) == (IngestAction::Skipped, t)
        }),
{
    lemma_position(s.memories, e.id);
    match position(s.memories, e.id) {
        None => {
            let m = crate::edit::indexed(e, tags, cwd, scope, t1);
            lemma_pushed_sound(s, m);
        },
        Some(i) => {
            let m = crate::edit::reindexed_entry(s.memories[i], e, tags, cwd, scope, t1);
            lemma_replaced(s, i, m);
        },
    }
    let t = with_entry_taken(s, e, tags, cwd, scope, force, t1).1;
    assert(t.get(e.id)->0.source == e.source);
}

/// Dismissing and queueing conflicts touch no memory, edge or index entry.
pub proof fn law_conflict_queue_touches_nothing_else(
    s: StoreV,
    old_id: Seq<char>,
    new_id: Seq<char>,
    relation: Seq<char>,
    confidence: Rank,
    rationale: Seq<char>,
    row: i64,
    reason: Seq<char>,
    author: Seq<char>,
    ts: i64,
)
    ensures
        ({
            let t = queued(s, old_id, new_id, relation, confidence, rationale, ts);
            t.memories == s.memories && t.edges == s.edges && t.topics == s.topics && t.events
                == s.events
        }),
        ({
            let r = dismissal(s, row, reason, author, ts);
            r is Ok ==> r->Ok_0.memories == s.memories && r->Ok_0.edges == s.edges
                && r->Ok_0.topics == s.topics
        }),
        queued(
            queued(s, old_id, new_id, relation, confidence, rationale, ts),
            old_id,
            new_id,
            relation,
            confidence,
            rationale,
            ts,
        ) == queued(s, old_id, new_id, relation, confidence, rationale, ts),
{
    let t = queued(s, old_id, new_id, relation, confidence, rationale, ts);
    if !crate::supersede::is_queued(s.conflicts, old_id, new_id) {
        let k = s.conflicts.len() as int;
        assert(t.conflicts[k].old_id == old_id && t.conflicts[k].new_id == new_id);
        assert(crate::supersede::is_queued(t.conflicts, old_id, new_id));
    }
}

/// Whether a text is a tag as a list of tags holds it: not empty, without
/// white space at its ends, without a comma.
pub open spec fn tag_shaped(t: Seq<char>) -> bool {
    t.len() > 0 && trimmed(t) == t && !t.contains(',')
}

/// Trimming a trimmed text changes nothing.
proof fn lemma_trimmed_twice(s: Seq<char>)
    ensures
        trimmed(trimmed(s)) == trimmed(s),
{
    crate::text::lemma_trimmed(s);
    let t = trimmed(s);
    if t.len() > 0 {
        assert(skip_white(t) == t);
        assert(drop_white(t) == t);
    } else {
        assert(skip_white(t) == t);
        assert(drop_white(t) == t);
    }
}

/// The pieces kept of a comma-separated list are tags.
proof fn lemma_pieces_are_tags(pieces: Seq<Seq<char>>)
    requires
        forall|i: int| 0 <= i < pieces.len() ==> !(#[trigger] pieces[i]).contains(','),
    ensures
        forall|i: int|
            0 <= i < trimmed_pieces(pieces).len() ==> tag_shaped(
                #[trigger] trimmed_pieces(pieces)[i],
            ),
    decreases pieces.len(),
{
    if pieces.len() > 0 {
        let init = pieces.drop_last();
        assert forall|i: int| 0 <= i < init.len() implies !(#[trigger] init[i]).contains(',') by {
            assert(init[i] == pieces[i]);
        }
        lemma_pieces_are_tags(init);
        let p = trimmed(pieces.last());
        crate::text::lemma_trimmed(pieces.last());
        lemma_trimmed_twice(pieces.last());
        assert(!pieces[pieces.len() - 1].contains(','));
        let out = trimmed_pieces(pieces);
        let before = trimmed_pieces(init);
        assert forall|i: int| 0 <= i < out.len() implies tag_shaped(#[trigger] out[i]) by {
            if i < before.len() {
                assert(out[i] == before[i]);
            }
        }
    }
}

/// A list of tags holds tags.
proof fn lemma_tag_list(tags: Seq<char>)
    ensures
        forall|i: int| 0 <= i < tag_list(tags).len() ==> tag_shaped(#[trigger] tag_list(tags)[i]),
{
    crate::text::lemma_pieces_plain(tags, ',');
    lemma_pieces_are_tags(split_on(tags, ','));
}

/// Tags are kept as they are.
proof fn lemma_tags_kept(parts: Seq<Seq<char>>)
    requires
        forall|i: int| 0 <= i < parts.len() ==> tag_shaped(#[trigger] parts[i]),
    ensures
        trimmed_pieces(parts) == parts,
    decreases parts.len(),
{
    if parts.len() == 0 {
        assert(trimmed_pieces(parts) =~= parts);
    } else {
        let init = parts.drop_last();
        assert forall|i: int| 0 <= i < init.len() implies tag_shaped(#[trigger] init[i]) by {
            assert(init[i] == parts[i]);
        }
        lemma_tags_kept(init);
        assert(tag_shaped(parts[parts.len() - 1]));
        assert(init.push(parts.last()) =~= parts);
    }
}

/// Joined tags list as the same tags.
proof fn lemma_tag_list_of_joined(parts: Seq<Seq<char>>)
    requires
        forall|i: int| 0 <= i < parts.len() ==> tag_shaped(#[trigger] parts[i]),
    ensures
        tag_list(joined(parts, ","@)) == parts,
{
    reveal_strlit(",");
    assert(","@ =~= seq![',']);
    if parts.len() == 0 {
        let e = Seq::<char>::empty();
        assert(joined(parts, ","@) == e);
        assert(split_on(e, ',') == seq![e]);
        let one = seq![e];
        assert(one.drop_last() =~= Seq::<Seq<char>>::empty());
        assert(trimmed(e) == e);
        assert(trimmed_pieces(one.drop_last()) =~= Seq::<Seq<char>>::empty());
        assert(trimmed_pieces(one) =~= parts);
    } else {
        assert forall|i: int| 0 <= i < parts.len() implies !(#[trigger] parts[i]).contains(
            ',',
        ) by {
            assert(tag_shaped(parts[i]));
        }
        crate::text::lemma_split_joined(parts, ',');
        lemma_tags_kept(parts);
    }
}

/// What is left out is gone, and nothing else is.
proof fn lemma_without(v: Seq<Seq<char>>, x: Seq<char>)
    ensures
        forall|t: Seq<char>|
            #![trigger listed(without(v, x), t)]
            #![trigger listed(v, t)]
            listed(without(v, x), t) <==> listed(v, t) && t != x,
        forall|i: int|
            0 <= i < without(v, x).len() ==> exists|k: int|
                0 <= k < v.len() && #[trigger] v[k] == #[trigger] without(v, x)[i],
    decreases v.len(),
{
    if v.len() > 0 {
        let init = v.drop_last();
        lemma_without(init, x);
        let w = without(v, x);
        let y = without(init, x);
        assert forall|t: Seq<char>|
            #![trigger listed(w, t)]
            #![trigger listed(v, t)]
            listed(w, t) <==> listed(v, t) && t != x by {
            if listed(w, t) {
                let i = choose|i: int| 0 <= i < w.len() && #[trigger] w[i] == t;
                if i < y.len() {
                    assert(y[i] == t);
                    assert(listed(y, t));
                    assert(listed(init, t));
                    let k = choose|k: int| 0 <= k < init.len() && #[trigger] init[k] == t;
                    assert(v[k] == t);
                } else {
                    assert(v[v.len() - 1] == t);
                }
            }
            if listed(v, t) && t != x {
                let k = choose|k: int| 0 <= k < v.len() && #[trigger] v[k] == t;
                if k < init.len() {
                    assert(init[k] == t);
                    assert(listed(init, t));
                    assert(listed(y, t));
                    let i = choose|i: int| 0 <= i < y.len() && #[trigger] y[i] == t;
                    assert(w[i] == t);
                } else {
                    assert(w[w.len() - 1] == t);
                }
            }
        }
        assert forall|i: int| 0 <= i < w.len() implies exists|k: int|
            0 <= k < v.len() && #[trigger] v[k] == #[trigger] w[i] by {
            if i < y.len() {
                assert(w[i] == y[i]);
                let k = choose|k: int| 0 <= k < init.len() && #[trigger] init[k] == y[i];
                assert(v[k] == w[i]);
            } else {
                assert(v[v.len() - 1] == w[i]);
            }
        }
    }
}

/// Nothing is left out of a list that does not hold it.
proof fn lemma_without_absent(v: Seq<Seq<char>>, x: Seq<char>)
    requires
        !listed(v, x),
    ensures
        without(v, x) == v,
    decreases v.len(),
{
    if v.len() == 0 {
        assert(without(v, x) =~= v);
    } else {
        let init = v.drop_last();
        assert(v[v.len() - 1] != x);
        assert(!listed(init, x)) by {
            if listed(init, x) {
                let k = choose|k: int| 0 <= k < init.len() && #[trigger] init[k] == x;
                assert(v[k] == x);
            }
        }
        lemma_without_absent(init, x);
        assert(init.push(v.last()) =~= v);
    }
}

/// The kernel's tag is a tag.
proof fn lemma_identity_is_a_tag()
    ensures
        tag_shaped(identity_tag()),
{
    reveal_strlit("identity");
    let t = identity_tag();
    assert(t.len() == 8 && t[0] == 'i' && t[7] == 'y');
    assert(t.last() == 'y');
    assert(skip_white(t) == t);
    assert(drop_white(t) == t);
    assert(!t.contains(',')) by {
        if t.contains(',') {
            let i = choose|i: int| 0 <= i < t.len() && t[i] == ',';
            assert(t[0] == 'i' && t[1] == 'd' && t[2] == 'e' && t[3] == 'n' && t[4] == 't' && t[5]
                == 'i' && t[6] == 't' && t[7] == 'y');
        }
    }
}

/// Promoting puts a memory into the kernel and demoting takes it out; every
/// other tag stays.
pub proof fn law_membership_is_set(tags: Seq<char>, member: bool)
    ensures
        in_kernel(member_tags(tags, member)) == member,
        forall|t: Seq<char>|
            t != identity_tag() ==> (#[trigger] listed(tag_list(member_tags(tags, member)), t)
                == listed(tag_list(tags), t)),
{
    lemma_tag_list(tags);
    lemma_identity_is_a_tag();
    let parts = tag_list(tags);
    let x = identity_tag();
    if member {
        let more = parts.push(x);
        assert forall|i: int| 0 <= i < more.len() implies tag_shaped(#[trigger] more[i]) by {
            if i < parts.len() {
                assert(more[i] == parts[i]);
            }
        }
        lemma_tag_list_of_joined(more);
        assert(more[parts.len() as int] == x);
        assert forall|t: Seq<char>| t != x implies listed(more, t) == listed(parts, t) by {
            if listed(more, t) {
                let i = choose|i: int| 0 <= i < more.len() && #[trigger] more[i] == t;
                assert(parts[i] == t);
            }
            if listed(parts, t) {
                let i = choose|i: int| 0 <= i < parts.len() && #[trigger] parts[i] == t;
                assert(more[i] == t);
            }
        }
    } else {
        lemma_without(parts, x);
        let less = without(parts, x);
        assert forall|i: int| 0 <= i < less.len() implies tag_shaped(#[trigger] less[i]) by {
            let k = choose|k: int| 0 <= k < parts.len() && #[trigger] parts[k] == less[i];
            assert(tag_shaped(parts[k]));
        }
        lemma_tag_list_of_joined(less);
    }
}

/// Demoting undoes promoting: the tags are those the memory had.
pub proof fn law_demote_undoes_promote(tags: Seq<char>)
    requires
        !in_kernel(tags),
    ensures
        tag_list(member_tags(member_tags(tags, true), false)) == tag_list(tags),
{
    lemma_tag_list(tags);
    lemma_identity_is_a_tag();
    let parts = tag_list(tags);
    let x = identity_tag();
    let more = parts.push(x);
    assert forall|i: int| 0 <= i < more.len() implies tag_shaped(#[trigger] more[i]) by {
        if i < parts.len() {
            assert(more[i] == parts[i]);
        }
    }
    lemma_tag_list_of_joined(more);
    assert(more.drop_last() =~= parts);
    lemma_without_absent(parts, x);
    assert(without(more, x) == parts);
    lemma_tag_list_of_joined(parts);
}

/// Setting a membership keeps the invariant and all other memories; where it is
/// set already, nothing at all changes and nothing is logged.
pub proof fn law_membership_keeps_the_rest(
    s: StoreV,
    id: Seq<char>,
    member: bool,
    reason: Seq<char>,
    ts: i64,
)
    requires
        sound(s),
        s.get(id) is Some,
    ensures
        ({
            let r = membership(s, id, member, reason, ts);
            &&& r is Ok
            &&& sound(r->Ok_0)
            &&& others_kept(s, r->Ok_0, id)
            &&& log_extends(s, r->Ok_0)
            &&& r->Ok_0.get(id) is Some && in_kernel(r->Ok_0.get(id)->0.tags) == member
            &&& in_kernel(s.get(id)->0.tags) == member ==> r->Ok_0 == s
        }),
{
    let i = position(s.memories, id)->0;
    lemma_position(s.memories, id);
    law_membership_is_set(s.memories[i].tags, member);
    let t = membership(s, id, member, reason, ts)->Ok_0;
    if in_kernel(s.memories[i].tags) != member {
        let m = MemoryV {
            tags: member_tags(s.memories[i].tags, member),
            updated_at: ts,
            ..s.memories[i]
        };
        lemma_replaced(s, i, m);
        lemma_replaced_sound(s, i, m);
        assert(t.memories == s.with_memory(i, m).memories);
        assert forall|x: Seq<char>| x != id implies #[trigger] t.get(x) == s.get(x) by {
            assert(s.with_memory(i, m).get(x) == s.get(x));
        }
    }
    assert(t.events.take(s.events.len() as int) =~= s.events);
}

} // verus!
