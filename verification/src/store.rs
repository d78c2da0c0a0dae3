//! The memory store: memories, supersession edges, suspected conflicts, the
//! event log and the topic index, with every operation that changes them.
use crate::rows::{memories, snapshot, Memory, MemoryV};
use crate::text::{opt_text, same};
use crate::tokens::{memory_terms, weigh_terms, weights_view};
use vstd::prelude::*;

verus! {

/// A floating-point number by its place in the order of such numbers: those
/// with a clear sign bit by their bit pattern, the others below zero, the
/// larger pattern first.
#[derive(Clone, Copy, Debug, PartialEq, Eq, Structural)]
pub struct Rank {
    pub key: i64,
}

/// The place of the number one.
pub const ONE_KEY: i64 = 4607182418800017408;

/// A supersession: what replaced a memory, or that nothing did.
#[derive(Debug)]
pub struct Edge {
    pub old_id: String,
    pub new_id: Option<String>,
    pub kind: String,
    pub reason: String,
    pub confidence: Rank,
    pub actor: String,
    pub created_at: i64,
}

/// What a supersession is.
pub struct EdgeV {
    pub old_id: Seq<char>,
    pub new_id: Option<Seq<char>>,
    pub kind: Seq<char>,
    pub reason: Seq<char>,
    pub confidence: Rank,
    pub actor: Seq<char>,
    pub created_at: i64,
}

impl View for Edge {
    type V = EdgeV;

    open spec fn view(&self) -> EdgeV {
        EdgeV {
            old_id: self.old_id@,
            new_id: opt_text(self.new_id),
            kind: self.kind@,
            reason: self.reason@,
            confidence: self.confidence,
            actor: self.actor@,
            created_at: self.created_at,
        }
    }
}

/// A suspected conflict between two memories.
#[derive(Debug)]
pub struct Conflict {
    pub id: i64,
    pub old_id: String,
    pub new_id: String,
    pub relation: String,
    pub confidence: Option<Rank>,
    pub rationale: String,
    pub status: String,
    pub created_at: i64,
}

/// What a suspected conflict is.
pub struct ConflictV {
    pub id: i64,
    pub old_id: Seq<char>,
    pub new_id: Seq<char>,
    pub relation: Seq<char>,
    pub confidence: Option<Rank>,
    pub rationale: Seq<char>,
    pub status: Seq<char>,
    pub created_at: i64,
}

impl View for Conflict {
    type V = ConflictV;

    open spec fn view(&self) -> ConflictV {
        ConflictV {
            id: self.id,
            old_id: self.old_id@,
            new_id: self.new_id@,
            relation: self.relation@,
            confidence: self.confidence,
            rationale: self.rationale@,
            status: self.status@,
            created_at: self.created_at,
        }
    }
}

/// One entry of the event log.
#[derive(Debug)]
pub struct Event {
    pub id: i64,
    pub ts: i64,
    pub actor: String,
    pub action: String,
    pub memory_id: String,
    pub before_json: Option<String>,
    pub after_json: Option<String>,
    pub reason: String,
    pub source_report: String,
}

/// What a log entry is.
pub struct EventV {
    pub id: i64,
    pub ts: i64,
    pub actor: Seq<char>,
    pub action: Seq<char>,
    pub memory_id: Seq<char>,
    pub before_json: Option<Seq<char>>,
    pub after_json: Option<Seq<char>>,
    pub reason: Seq<char>,
    pub source_report: Seq<char>,
}

impl View for Event {
    type V = EventV;

    open spec fn view(&self) -> EventV {
        EventV {
            id: self.id,
            ts: self.ts,
            actor: self.actor@,
            action: self.action@,
            memory_id: self.memory_id@,
            before_json: opt_text(self.before_json),
            after_json: opt_text(self.after_json),
            reason: self.reason@,
            source_report: self.source_report@,
        }
    }
}

/// One entry of the topic index: a term of a memory and its weight in half
/// units.
#[derive(Debug)]
pub struct Topic {
    pub term: String,
    pub memory_id: String,
    pub weight: u64,
}

/// What an index entry is.
pub struct TopicV {
    pub term: Seq<char>,
    pub memory_id: Seq<char>,
    pub weight: u64,
}

impl View for Topic {
    type V = TopicV;

    open spec fn view(&self) -> TopicV {
        TopicV { term: self.term@, memory_id: self.memory_id@, weight: self.weight }
    }
}

/// The store.
#[derive(Debug)]
pub struct Store {
    pub memories: Vec<Memory>,
    pub edges: Vec<Edge>,
    pub conflicts: Vec<Conflict>,
    pub events: Vec<Event>,
    pub topics: Vec<Topic>,
    pub next_event: i64,
    pub next_conflict: i64,
}

/// What the store holds.
pub struct StoreV {
    pub memories: Seq<MemoryV>,
    pub edges: Seq<EdgeV>,
    pub conflicts: Seq<ConflictV>,
    pub events: Seq<EventV>,
    pub topics: Seq<TopicV>,
    pub next_event: int,
    pub next_conflict: int,
}

/// What a list of edges is.
pub open spec fn edges_view(v: Seq<Edge>) -> Seq<EdgeV> {
    v.map_values(|e: Edge| e@)
}

/// What a list of conflicts is.
pub open spec fn conflicts_view(v: Seq<Conflict>) -> Seq<ConflictV> {
    v.map_values(|c: Conflict| c@)
}

/// What a list of events is.
pub open spec fn events_view(v: Seq<Event>) -> Seq<EventV> {
    v.map_values(|e: Event| e@)
}

/// What a list of index entries is.
pub open spec fn topics_view(v: Seq<Topic>) -> Seq<TopicV> {
    v.map_values(|t: Topic| t@)
}

impl View for Store {
    type V = StoreV;

    open spec fn view(&self) -> StoreV {
        StoreV {
            memories: memories(self.memories@),
            edges: edges_view(self.edges@),
            conflicts: conflicts_view(self.conflicts@),
            events: events_view(self.events@),
            topics: topics_view(self.topics@),
            next_event: self.next_event as int,
            next_conflict: self.next_conflict as int,
        }
    }
}

/// The position of the memory with an id; the first of several.
pub open spec fn position(ms: Seq<MemoryV>, id: Seq<char>) -> Option<int>
    decreases ms.len(),
{
    if ms.len() == 0 {
        None
    } else {
        match position(ms.drop_last(), id) {
            Some(i) => Some(i),
            None => if ms.last().id == id {
                Some(ms.len() - 1)
            } else {
                None
            },
        }
    }
}

/// A position is where the memory stands.
pub proof fn lemma_position(ms: Seq<MemoryV>, id: Seq<char>)
    ensures
        match position(ms, id) {
            Some(i) => 0 <= i < ms.len() && ms[i].id == id && forall|k: int|
                0 <= k < i ==> (#[trigger] ms[k]).id != id,
            None => forall|k: int| 0 <= k < ms.len() ==> (#[trigger] ms[k]).id != id,
        },
    decreases ms.len(),
{
    if ms.len() > 0 {
        let t = ms.drop_last();
        lemma_position(t, id);
        match position(t, id) {
            Some(i) => {
                assert forall|k: int| 0 <= k < i implies (#[trigger] ms[k]).id != id by {
                    assert(t[k] == ms[k]);
                }
            },
            None => {
                assert forall|k: int| 0 <= k < t.len() implies (#[trigger] ms[k]).id != id by {
                    assert(t[k] == ms[k]);
                }
            },
        }
    }
}

/// Where the first memory with an id stands decides its position.
pub proof fn lemma_position_is(ms: Seq<MemoryV>, id: Seq<char>, i: int)
    requires
        0 <= i < ms.len(),
        ms[i].id == id,
        forall|k: int| 0 <= k < i ==> (#[trigger] ms[k]).id != id,
    ensures
        position(ms, id) == Some(i),
{
    lemma_position(ms, id);
    match position(ms, id) {
        Some(j) => {
            if j < i {
                assert(ms[j].id != id);
            } else if i < j {
                assert(ms[i].id != id);
            }
        },
        None => {
            assert(ms[i].id != id);
        },
    }
}

/// The index entries that do not belong to a memory.
pub open spec fn without_topics(ts: Seq<TopicV>, id: Seq<char>) -> Seq<TopicV>
    decreases ts.len(),
{
    if ts.len() == 0 {
        Seq::empty()
    } else if ts.last().memory_id == id {
        without_topics(ts.drop_last(), id)
    } else {
        without_topics(ts.drop_last(), id).push(ts.last())
    }
}

/// The index entries of a memory: its weighted terms while it is in force.
pub open spec fn topics_of(m: MemoryV) -> Seq<TopicV> {
    if m.in_force() {
        memory_terms(m.tags, m.name, m.description, m.content, m.cwd).map_values(
            |w: (Seq<char>, u64)| TopicV { term: w.0, memory_id: m.id, weight: w.1 },
        )
    } else {
        Seq::empty()
    }
}

impl StoreV {
    /// Whether no two memories share an id.
    pub open spec fn wf(self) -> bool {
        forall|i: int, j: int|
            0 <= i < j < self.memories.len() ==> (#[trigger] self.memories[i]).id != (
            #[trigger] self.memories[j]).id
    }

    /// The memory with an id.
    pub open spec fn get(self, id: Seq<char>) -> Option<MemoryV> {
        match position(self.memories, id) {
            Some(i) => Some(self.memories[i]),
            None => None,
        }
    }

    /// The store with the memory at a position replaced.
    pub open spec fn with_memory(self, i: int, m: MemoryV) -> StoreV {
        StoreV { memories: self.memories.update(i, m), ..self }
    }

    /// The store with the topic index rebuilt for one memory.
    pub open spec fn reindexed(self, m: MemoryV) -> StoreV {
        StoreV { topics: without_topics(self.topics, m.id) + topics_of(m), ..self }
    }

    /// The store with one more log entry.
    pub open spec fn logged(
        self,
        ts: i64,
        actor: Seq<char>,
        action: Seq<char>,
        memory_id: Seq<char>,
        before: Option<Seq<char>>,
        after: Option<Seq<char>>,
        reason: Seq<char>,
        source_report: Seq<char>,
    ) -> StoreV {
        StoreV {
            events: self.events.push(
                EventV {
                    id: self.next_event as i64,
                    ts,
                    actor,
                    action,
                    memory_id,
                    before_json: before,
                    after_json: after,
                    reason,
                    source_report,
                },
            ),
            next_event: self.next_event + 1,
            ..self
        }
    }
}

impl Store {
    /// A store that holds nothing.
    pub fn new() -> (r: Store)
        ensures
            r@.wf(),
            r@.memories.len() == 0,
            r@.edges.len() == 0,
            r@.conflicts.len() == 0,
            r@.events.len() == 0,
            r@.topics.len() == 0,
            r.next_event == 1,
            r.next_conflict == 1,
    {
        Store {
            memories: Vec::new(),
            edges: Vec::new(),
            conflicts: Vec::new(),
            events: Vec::new(),
            topics: Vec::new(),
            next_event: 1,
            next_conflict: 1,
        }
    }

    /// Whether no two memories share an id.
    pub fn is_wf(&self) -> (r: bool)
        ensures
            r == self@.wf(),
    {
        let ghost ms = self@.memories;
        let mut i: usize = 0;
        while i < self.memories.len()
            invariant
                ms == self@.memories,
                i <= self.memories@.len(),
                forall|a: int, b: int|
                    0 <= a < b < i ==> (#[trigger] ms[a]).id != (#[trigger] ms[b]).id,
            decreases self.memories@.len() - i,
        {
            let mut k: usize = 0;
            while k < i
                invariant
                    ms == self@.memories,
                    k <= i < self.memories@.len(),
                    forall|a: int| 0 <= a < k ==> (#[trigger] ms[a]).id != ms[i as int].id,
                decreases i - k,
            {
                if same(self.memories[k].id.as_str(), self.memories[i].id.as_str()) {
                    assert(ms[k as int].id == ms[i as int].id);
                    return false;
                }
                k = k + 1;
            }
            i = i + 1;
        }
        true
    }

    /// The position of the memory with an id.
    pub fn find(&self, id: &str) -> (r: Option<usize>)
        ensures
            match r {
                Some(i) => i < self.memories@.len() && self.memories@[i as int].id@ == id@
                    && position(self@.memories, id@) == Some(i as int),
                None => position(self@.memories, id@) is None,
            },
    {
        let ghost ms = self@.memories;
        let mut i: usize = 0;
        while i < self.memories.len()
            invariant
                ms == self@.memories,
                i <= self.memories@.len(),
                forall|k: int| 0 <= k < i ==> (#[trigger] ms[k]).id != id@,
            decreases self.memories@.len() - i,
        {
            assert(ms[i as int] == self.memories@[i as int]@);
            if same(self.memories[i].id.as_str(), id) {
                proof {
                    lemma_position_is(ms, id@, i as int);
                }
                return Some(i);
            }
            i = i + 1;
        }
        proof {
            lemma_position(ms, id@);
        }
        None
    }

    /// The memory with an id.
    pub fn get(&self, id: &str) -> (r: Option<&Memory>)
        ensures
            match r {
                Some(m) => self@.get(id@) == Some(m@),
                None => self@.get(id@) is None,
            },
    {
        match self.find(id) {
            Some(i) => Some(&self.memories[i]),
            None => None,
        }
    }

    /// Replaces the memory at a position.
    pub(crate) fn put_memory(&mut self, i: usize, m: Memory)
        requires
            i < old(self).memories@.len(),
        ensures
            final(self)@ == old(self)@.with_memory(i as int, m@),
    {
        let ghost before = self.memories@;
        self.memories.set(i, m);
        assert(memories(self.memories@) =~= memories(before).update(i as int, m@));
    }

    /// Rebuilds the topic index for a memory.
    pub(crate) fn reindex(&mut self, m: &Memory)
        ensures
            final(self)@ == old(self)@.reindexed(m@),
    {
        let ghost all = topics_view(self.topics@);
        let mut out: Vec<Topic> = Vec::new();
        let mut i: usize = 0;
        assert(topics_view(out@) =~= without_topics(all.take(0), m.id@));
        while i < self.topics.len()
            invariant
                all == topics_view(self.topics@),
                i <= self.topics@.len(),
                *self == *old(self),
                topics_view(out@) == without_topics(all.take(i as int), m.id@),
            decreases self.topics@.len() - i,
        {
            assert(all.take(i as int + 1).drop_last() =~= all.take(i as int));
            assert(all.take(i as int + 1).last() == self.topics@[i as int]@);
            if !same(self.topics[i].memory_id.as_str(), m.id.as_str()) {
                let t = Topic {
                    term: self.topics[i].term.clone(),
                    memory_id: self.topics[i].memory_id.clone(),
                    weight: self.topics[i].weight,
                };
                let ghost before = out@;
                out.push(t);
                assert(topics_view(out@) =~= topics_view(before).push(t@));
            }
            i = i + 1;
        }
        assert(all.take(i as int) =~= all);
        let ghost kept = topics_view(out@);
        if m.is_in_force() {
            let ws = weigh_terms(
                m.tags.as_str(),
                m.name.as_str(),
                m.description.as_str(),
                m.content.as_str(),
                m.cwd.as_str(),
            );
            let ghost want = topics_of(m@);
            let mut k: usize = 0;
            assert(topics_view(out@) =~= kept + want.take(0));
            while k < ws.len()
                invariant
                    k <= ws@.len(),
                    m@.in_force(),
                    *self == *old(self),
                    want == topics_of(m@),
                    weights_view(ws@) == memory_terms(
                        m@.tags,
                        m@.name,
                        m@.description,
                        m@.content,
                        m@.cwd,
                    ),
                    topics_view(out@) == kept + want.take(k as int),
                decreases ws@.len() - k,
            {
                let t = Topic {
                    term: ws[k].0.clone(),
                    memory_id: m.id.clone(),
                    weight: ws[k].1,
                };
                let ghost before = out@;
                assert(weights_view(ws@)[k as int] == (ws@[k as int].0@, ws@[k as int].1));
                assert(want[k as int] == t@);
                out.push(t);
                assert(topics_view(out@) =~= topics_view(before).push(t@));
                assert(want.take(k as int + 1) =~= want.take(k as int).push(want[k as int]));
                assert(kept + want.take(k as int + 1) =~= (kept + want.take(k as int)).push(t@));
                k = k + 1;
            }
            assert(want.len() == ws@.len());
            assert(want.take(k as int) =~= want);
        } else {
            assert(kept + topics_of(m@) =~= kept);
        }
        self.topics = out;
    }

    /// Appends a log entry.
    pub(crate) fn log(
        &mut self,
        ts: i64,
        actor: &str,
        action: &str,
        memory_id: &str,
        before: Option<String>,
        after: Option<String>,
        reason: &str,
        source_report: &str,
    )
        requires
            old(self).next_event < i64::MAX,
        ensures
            final(self)@ == old(self)@.logged(
                ts,
                actor@,
                action@,
                memory_id@,
                opt_text(before),
                opt_text(after),
                reason@,
                source_report@,
            ),
    {
        let e = Event {
            id: self.next_event,
            ts,
            actor: actor.to_owned(),
            action: action.to_owned(),
            memory_id: memory_id.to_owned(),
            before_json: before,
            after_json: after,
            reason: reason.to_owned(),
            source_report: source_report.to_owned(),
        };
        let ghost was = self.events@;
        self.events.push(e);
        assert(events_view(self.events@) =~= events_view(was).push(e@));
        self.next_event = self.next_event + 1;
    }
}

/// The message for an id that no memory has.
pub open spec fn no_memory(id: Seq<char>) -> Seq<char> {
    "no memory found with id="@ + id
}

/// Writes the message for an id that no memory has.
pub fn missing_memory(id: &str) -> (r: String)
    ensures
        r@ == no_memory(id@),
{
    let mut e = "no memory found with id=".to_string();
    e.append(id);
    e
}

/// What an operation on the store gives: the store after it, or why it was
/// refused.
pub type Changed = Result<StoreV, Seq<char>>;

/// Whether an executed operation agrees with a specified one: on success the
/// store is the specified one, on refusal it is unchanged and the message is
/// the specified one.
pub open spec fn agrees(
    r: Result<(), String>,
    before: StoreV,
    after: StoreV,
    spec: Changed,
) -> bool {
    match r {
        Ok(_) => spec == Ok::<StoreV, Seq<char>>(after),
        Err(e) => spec == Err::<StoreV, Seq<char>>(e@) && after == before,
    }
}

/// Whether an operation was done, without what it says.
pub open spec fn done<T>(r: Result<T, String>) -> Result<(), String> {
    match r {
        Ok(_) => Ok(()),
        Err(e) => Err(e),
    }
}

/// A memory taken back into force: its supersession is forgotten with its
/// archival.
pub open spec fn restored(m: MemoryV, ts: i64) -> MemoryV {
    MemoryV {
        lifecycle: "active"@,
        is_active: true,
        archived_at: None,
        trashed_at: None,
        purge_after: None,
        superseded_by: None,
        supersede_reason: None,
        updated_at: ts,
        ..m
    }
}

/// A memory that is archived.
pub open spec fn archived(m: MemoryV, ts: i64) -> MemoryV {
    MemoryV {
        lifecycle: "archived"@,
        is_active: false,
        archived_at: Some(ts),
        trashed_at: None,
        updated_at: ts,
        ..m
    }
}

/// A memory that is thrown away.
pub open spec fn trashed(m: MemoryV, ts: i64) -> MemoryV {
    MemoryV {
        lifecycle: "trashed"@,
        is_active: false,
        trashed_at: Some(ts),
        updated_at: ts,
        ..m
    }
}

/// A memory with a lifecycle set, and the name of the action; none for a
/// lifecycle that cannot be set.
pub open spec fn lifecycle_step(m: MemoryV, lifecycle: Seq<char>, ts: i64) -> Option<
    (Seq<char>, MemoryV),
> {
    if lifecycle == "active"@ {
        Some(("restore"@, restored(m, ts)))
    } else if lifecycle == "archived"@ {
        Some(("archive"@, archived(m, ts)))
    } else if lifecycle == "trashed"@ {
        Some(("trash"@, trashed(m, ts)))
    } else {
        None
    }
}

/// The name of the action that sets a lifecycle.
pub open spec fn lifecycle_action(lifecycle: Seq<char>) -> Seq<char> {
    if lifecycle == "active"@ {
        "restore"@
    } else if lifecycle == "archived"@ {
        "archive"@
    } else {
        "trash"@
    }
}

/// What is told of a lifecycle that was set: the action and the memory.
pub open spec fn lifecycle_told(lifecycle: Seq<char>, id: Seq<char>) -> Seq<char> {
    lifecycle_action(lifecycle) + ": "@ + id
}

/// Setting the lifecycle of a memory.
pub open spec fn lifecycle_set(
    s: StoreV,
    id: Seq<char>,
    lifecycle: Seq<char>,
    reason: Seq<char>,
    source_report: Seq<char>,
    ts: i64,
) -> Changed {
    match position(s.memories, id) {
        None => Err(no_memory(id)),
        Some(i) => match lifecycle_step(s.memories[i], lifecycle, ts) {
            None => Err("invalid lifecycle: "@ + lifecycle),
            Some((action, m)) => Ok(
                s.with_memory(i, m).reindexed(m).logged(
                    ts,
                    "agent"@,
                    action,
                    id,
                    Some(snapshot(s.memories[i])),
                    Some(snapshot(m)),
                    reason,
                    source_report,
                ),
            ),
        },
    }
}

/// The arguments of a lifecycle change.
#[derive(Debug)]
pub struct LifecycleArgs {
    pub id: String,
    pub reason: String,
    pub source_report: String,
}

/// Whether the store has room for one more log entry.
pub open spec fn can_log(s: StoreV) -> bool {
    s.next_event < i64::MAX
}

impl Store {
    /// Archives, throws away or restores a memory, and says so.
    pub fn set_lifecycle(&mut self, args: &LifecycleArgs, lifecycle: &str, ts: i64) -> (r: Result<
        String,
        String,
    >)
        requires
            can_log(old(self)@),
        ensures
            agrees(
                done(r),
                old(self)@,
                final(self)@,
                lifecycle_set(
                    old(self)@,
                    args.id@,
                    lifecycle@,
                    args.reason@,
                    args.source_report@,
                    ts,
                ),
            ),
            r is Ok ==> r->Ok_0@ == lifecycle_told(lifecycle@, args.id@),
    {
        proof {
            reveal_strlit("active");
            reveal_strlit("archived");
            reveal_strlit("trashed");
        }
        let i = match self.find(args.id.as_str()) {
            Some(i) => i,
            None => {
                return Err(missing_memory(args.id.as_str()));
            },
        };
        let before = self.memories[i].snapshot_text();
        let mut m = self.memories[i].copy();
        let action: &str;
        if same(lifecycle, "active") {
            action = "restore";
            m.lifecycle = "active".to_string();
            m.is_active = true;
            m.archived_at = None;
            m.trashed_at = None;
            m.purge_after = None;
            m.superseded_by = None;
            m.supersede_reason = None;
            m.updated_at = ts;
        } else if same(lifecycle, "archived") {
            action = "archive";
            m.lifecycle = "archived".to_string();
            m.is_active = false;
            m.archived_at = Some(ts);
            m.trashed_at = None;
            m.updated_at = ts;
        } else if same(lifecycle, "trashed") {
            action = "trash";
            m.lifecycle = "trashed".to_string();
            m.is_active = false;
            m.trashed_at = Some(ts);
            m.updated_at = ts;
        } else {
            let mut e = "invalid lifecycle: ".to_string();
            e.append(lifecycle);
            return Err(e);
        }
        let after = m.snapshot_text();
        self.reindex(&m);
        self.put_memory(i, m);
        self.log(
            ts,
            "agent",
            action,
            args.id.as_str(),
            Some(before),
            Some(after),
            args.reason.as_str(),
            args.source_report.as_str(),
        );
        let mut told = action.to_owned();
        told.append(": ");
        told.append(args.id.as_str());
        Ok(told)
    }
}

} // verus!
