//! What the topic index holds: the weighted terms of the memories in force, and
//! nothing else, whether it is kept up memory by memory or rebuilt.
use crate::edit::{active_count, all_topics};
use crate::rows::MemoryV;
use crate::store::{topics_of, without_topics, StoreV, TopicV};
use crate::tokens::memory_terms;
use vstd::prelude::*;

verus! {

/// A memory in force is indexed under its own id with the weight of each of its
/// terms; a memory that is not is not indexed.
pub proof fn law_index_entries_are_the_terms(m: MemoryV, t: TopicV)
    ensures
        topics_of(m).contains(t) <==> {
            &&& m.is_active && m.lifecycle == "active"@
            &&& t.memory_id == m.id
            &&& memory_terms(m.tags, m.name, m.description, m.content, m.cwd).contains(
                (t.term, t.weight),
            )
        },
{
    let ws = memory_terms(m.tags, m.name, m.description, m.content, m.cwd);
    let ts = topics_of(m);
    if ts.contains(t) {
        let i = choose|i: int| 0 <= i < ts.len() && ts[i] == t;
        assert(ws[i] == (t.term, t.weight));
    }
    if m.is_active && m.lifecycle == "active"@ && t.memory_id == m.id && ws.contains(
        (t.term, t.weight),
    ) {
        let i = choose|i: int| 0 <= i < ws.len() && ws[i] == (t.term, t.weight);
        assert(ts[i] == t);
    }
}

/// What stays of an index is what belongs to other memories.
proof fn lemma_without(ts: Seq<TopicV>, id: Seq<char>, t: TopicV)
    ensures
        without_topics(ts, id).contains(t) <==> ts.contains(t) && t.memory_id != id,
    decreases ts.len(),
{
    let r = without_topics(ts, id);
    if ts.len() > 0 {
        let prev = ts.drop_last();
        lemma_without(prev, id, t);
        let init = without_topics(prev, id);
        if r.contains(t) {
            let i = choose|i: int| 0 <= i < r.len() && r[i] == t;
            if i < init.len() {
                assert(init[i] == t);
                assert(init.contains(t));
                let k = choose|k: int| 0 <= k < prev.len() && prev[k] == t;
                assert(ts[k] == t);
            } else {
                assert(ts[ts.len() - 1] == t);
            }
        }
        if ts.contains(t) && t.memory_id != id {
            let k = choose|k: int| 0 <= k < ts.len() && ts[k] == t;
            if k < prev.len() {
                assert(prev[k] == t);
                assert(init.contains(t));
                let i = choose|i: int| 0 <= i < init.len() && init[i] == t;
                assert(r[i] == t);
            } else {
                assert(r[r.len() - 1] == t);
            }
        }
    }
}

/// Indexing a memory again puts its terms in the place of what was there under
/// its id and leaves the entries of all others.
pub proof fn law_reindexing_replaces_its_own(s: StoreV, m: MemoryV, t: TopicV)
    ensures
        s.reindexed(m).topics.contains(t) <==> (s.topics.contains(t) && t.memory_id != m.id)
            || topics_of(m).contains(t),
        s.reindexed(m).memories == s.memories && s.reindexed(m).edges == s.edges && s.reindexed(
            m,
        ).events == s.events && s.reindexed(m).conflicts == s.conflicts,
{
    lemma_without(s.topics, m.id, t);
    let a = without_topics(s.topics, m.id);
    let b = topics_of(m);
    let r = a + b;
    if r.contains(t) {
        let i = choose|i: int| 0 <= i < r.len() && r[i] == t;
        if i < a.len() {
            assert(a[i] == t);
        } else {
            assert(b[i - a.len()] == t);
        }
    }
    if a.contains(t) {
        let i = choose|i: int| 0 <= i < a.len() && a[i] == t;
        assert(r[i] == t);
    }
    if b.contains(t) {
        let i = choose|i: int| 0 <= i < b.len() && b[i] == t;
        assert(r[a.len() + i] == t);
    }
}

/// Whether some memory in force has an index entry.
pub open spec fn entry_due(ms: Seq<MemoryV>, t: TopicV) -> bool {
    exists|i: int| 0 <= i < ms.len() && topics_of(#[trigger] ms[i]).contains(t)
}

/// A rebuilt index holds the terms of the memories in force, all of them and
/// nothing else; what it was before does not matter.
pub proof fn law_rebuilt_index_is_complete(ms: Seq<MemoryV>, t: TopicV)
    requires
        forall|i: int, j: int|
            0 <= i < j < ms.len() ==> (#[trigger] ms[i]).id != (#[trigger] ms[j]).id,
    ensures
        all_topics(ms).contains(t) <==> entry_due(ms, t),
    decreases ms.len(),
{
    let r = all_topics(ms);
    if ms.len() > 0 {
        let prev = ms.drop_last();
        let m = ms.last();
        assert forall|i: int, j: int| 0 <= i < j < prev.len() implies (#[trigger] prev[i]).id != (
        #[trigger] prev[j]).id by {
            assert(prev[i] == ms[i] && prev[j] == ms[j]);
        }
        law_rebuilt_index_is_complete(prev, t);
        let init = all_topics(prev);
        lemma_without(init, m.id, t);
        law_index_entries_are_the_terms(m, t);
        let a = without_topics(init, m.id);
        let b = topics_of(m);
        if r.contains(t) {
            let i = choose|i: int| 0 <= i < r.len() && r[i] == t;
            if m.is_active && i >= a.len() {
                assert(b[i - a.len()] == t);
                assert(topics_of(ms[ms.len() - 1]).contains(t));
            } else {
                if m.is_active {
                    assert(a[i] == t);
                    assert(a.contains(t));
                }
                assert(init.contains(t));
                let k = choose|k: int|
                    0 <= k < prev.len() && topics_of(#[trigger] prev[k]).contains(t);
                assert(topics_of(ms[k]).contains(t));
            }
        }
        if entry_due(ms, t) {
            let k = choose|k: int| 0 <= k < ms.len() && topics_of(#[trigger] ms[k]).contains(t);
            law_index_entries_are_the_terms(ms[k], t);
            if k < prev.len() {
                assert(topics_of(prev[k]).contains(t));
                assert(entry_due(prev, t));
                assert(init.contains(t));
                assert(ms[k].id != ms[ms.len() - 1].id);
                if m.is_active {
                    assert(a.contains(t));
                    let i = choose|i: int| 0 <= i < a.len() && a[i] == t;
                    assert(r[i] == t);
                }
            } else {
                let i = choose|i: int| 0 <= i < b.len() && b[i] == t;
                assert(r[a.len() + i] == t);
            }
        }
    }
}

/// A rebuild counts the active memories: one more for each.
pub proof fn law_active_memories_are_counted(a: Seq<MemoryV>, b: Seq<MemoryV>, m: MemoryV)
    ensures
        active_count(a + b) == active_count(a) + active_count(b),
        active_count(seq![m]) == (if m.is_active {
            1nat
        } else {
            0nat
        }),
        active_count(Seq::empty()) == 0,
    decreases b.len(),
{
    let one = seq![m];
    assert(one.drop_last() =~= Seq::<MemoryV>::empty());
    assert(active_count(one.drop_last()) == 0);
    if b.len() == 0 {
        assert(a + b =~= a);
    } else {
        law_active_memories_are_counted(a, b.drop_last(), m);
        assert((a + b).drop_last() =~= a + b.drop_last());
        assert((a + b).last() == b.last());
    }
}

} // verus!
