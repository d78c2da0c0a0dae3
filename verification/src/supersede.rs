//! Supersession: one memory replacing another, withdrawal without a successor,
//! renewal by verification, the queue of suspected conflicts, and the way from
//! a superseded memory to the one in force.
use crate::rows::{memories, snapshot, MemoryV};
use crate::settings::{Settings, SettingsV};
use crate::store::{
    agrees, can_log, conflicts_view, edges_view, missing_memory, no_memory, position, Changed,
    Conflict, ConflictV, Edge, EdgeV, Rank, Store, StoreV, ONE_KEY,
};
use crate::text::{blank, i64_text, int_text, is_blank, same};
use vstd::prelude::*;

verus! {

/// Who acts where nobody is named: the configured author, else the profile,
/// else nobody.
pub open spec fn acting_author(s: SettingsV) -> Seq<char> {
    match s.var("AGENT_AUTHOR"@) {
        Some(a) => a,
        None => match s.var("CLAUDE_PROFILE"@) {
            Some(p) => p,
            None => Seq::empty(),
        },
    }
}

/// Resolves who acts.
pub fn default_author(s: &Settings) -> (r: String)
    ensures
        r@ == acting_author(s@),
{
    match s.var("AGENT_AUTHOR") {
        Some(a) => a,
        None => match s.var("CLAUDE_PROFILE") {
            Some(p) => p,
            None => String::new(),
        },
    }
}

/// Whether an edge for a pair exists.
pub open spec fn has_edge(es: Seq<EdgeV>, old: Seq<char>, new: Seq<char>) -> bool {
    exists|i: int|
        0 <= i < es.len() && (#[trigger] es[i]).old_id == old && es[i].new_id == Some(new)
}

/// The edges with one more, unless there is one for the pair already.
pub open spec fn edges_with(es: Seq<EdgeV>, e: EdgeV) -> Seq<EdgeV> {
    if e.new_id is Some && has_edge(es, e.old_id, e.new_id->0) {
        es
    } else {
        es.push(e)
    }
}

/// Whether an open conflict is about a pair, whichever way round.
pub open spec fn about_pair(c: ConflictV, a: Seq<char>, b: Seq<char>) -> bool {
    c.status == "open"@ && ((c.old_id == a && c.new_id == b) || (c.old_id == b && c.new_id == a))
}

/// Whether an open conflict touches a memory.
pub open spec fn about_memory(c: ConflictV, id: Seq<char>) -> bool {
    c.status == "open"@ && (c.old_id == id || c.new_id == id)
}

/// A conflict that is settled.
pub open spec fn settled(c: ConflictV) -> ConflictV {
    ConflictV { status: "resolved"@, ..c }
}

/// The conflicts with those about a pair settled.
pub open spec fn pair_settled(cs: Seq<ConflictV>, a: Seq<char>, b: Seq<char>) -> Seq<ConflictV> {
    cs.map_values(
        |c: ConflictV|
            if about_pair(c, a, b) {
                settled(c)
            } else {
                c
            },
    )
}

/// The conflicts with those that touch a memory settled.
pub open spec fn memory_settled(cs: Seq<ConflictV>, id: Seq<char>) -> Seq<ConflictV> {
    cs.map_values(
        |c: ConflictV|
            if about_memory(c, id) {
                settled(c)
            } else {
                c
            },
    )
}

/// A memory that another replaced. Where the world changed, rather than the
/// memory having been wrong, the time that it held ends.
pub open spec fn superseded(
    m: MemoryV,
    new: Seq<char>,
    kind: Seq<char>,
    reason: Seq<char>,
    ts: i64,
) -> MemoryV {
    MemoryV {
        superseded_by: Some(new),
        supersede_reason: Some(reason),
        lifecycle: "superseded"@,
        updated_at: ts,
        valid_to: if kind == "updates"@ && m.valid_to is None {
            Some(ts)
        } else {
            m.valid_to
        },
        ..m
    }
}

/// Replacing a memory by another.
pub open spec fn supersession(
    s: StoreV,
    old_id: Seq<char>,
    new_id: Seq<char>,
    kind: Seq<char>,
    reason: Seq<char>,
    confidence: Rank,
    actor: Seq<char>,
    ts: i64,
) -> Changed {
    if old_id == new_id {
        Err("a memory cannot supersede itself"@)
    } else {
        match position(s.memories, old_id) {
            None => Err(no_memory(old_id)),
            Some(i) => if position(s.memories, new_id) is None {
                Err("no successor memory with id="@ + new_id)
            } else {
                let m = superseded(s.memories[i], new_id, kind, reason, ts);
                let t = s.with_memory(i, m).reindexed(m).logged(
                    ts,
                    actor,
                    "supersede"@,
                    old_id,
                    Some(snapshot(s.memories[i])),
                    Some(snapshot(m)),
                    reason,
                    ""@,
                );
                Ok(
                    StoreV {
                        edges: edges_with(
                            s.edges,
                            EdgeV {
                                old_id,
                                new_id: Some(new_id),
                                kind,
                                reason,
                                confidence,
                                actor,
                                created_at: ts,
                            },
                        ),
                        conflicts: pair_settled(s.conflicts, old_id, new_id),
                        ..t
                    },
                )
            },
        }
    }
}

/// Withdrawing a memory without a successor.
pub open spec fn retraction(
    s: StoreV,
    id: Seq<char>,
    reason: Seq<char>,
    author: Seq<char>,
    ts: i64,
) -> Changed {
    if blank(reason) {
        Err("retract requires a non-empty --reason"@)
    } else {
        match position(s.memories, id) {
            None => Err(no_memory(id)),
            Some(i) => {
                let m = MemoryV {
                    lifecycle: "retracted"@,
                    is_active: false,
                    updated_at: ts,
                    ..s.memories[i]
                };
                let t = s.with_memory(i, m).reindexed(m).logged(
                    ts,
                    "agent"@,
                    "retract"@,
                    id,
                    Some(snapshot(s.memories[i])),
                    Some(snapshot(m)),
                    reason,
                    ""@,
                );
                Ok(
                    StoreV {
                        edges: s.edges.push(
                            EdgeV {
                                old_id: id,
                                new_id: None,
                                kind: "retracts"@,
                                reason,
                                confidence: Rank { key: ONE_KEY },
                                actor: author,
                                created_at: ts,
                            },
                        ),
                        conflicts: memory_settled(s.conflicts, id),
                        ..t
                    },
                )
            },
        }
    }
}

/// Stamping a memory as checked.
pub open spec fn verification(s: StoreV, id: Seq<char>, note: Seq<char>, ts: i64) -> Changed {
    match position(s.memories, id) {
        None => Err(no_memory(id)),
        Some(i) => {
            let m = MemoryV { verified_at: Some(ts), updated_at: ts, ..s.memories[i] };
            Ok(
                s.with_memory(i, m).logged(
                    ts,
                    "agent"@,
                    "verify"@,
                    id,
                    Some(snapshot(s.memories[i])),
                    Some(snapshot(m)),
                    note,
                    ""@,
                ),
            )
        },
    }
}

/// The position of the open conflict with a number.
pub open spec fn open_conflict(cs: Seq<ConflictV>, id: i64) -> Option<int>
    decreases cs.len(),
{
    if cs.len() == 0 {
        None
    } else {
        match open_conflict(cs.drop_last(), id) {
            Some(i) => Some(i),
            None => if cs.last().id == id && cs.last().status == "open"@ {
                Some(cs.len() - 1)
            } else {
                None
            },
        }
    }
}

/// Dismissing a suspected conflict.
pub open spec fn dismissal(
    s: StoreV,
    row: i64,
    reason: Seq<char>,
    author: Seq<char>,
    ts: i64,
) -> Changed {
    match open_conflict(s.conflicts, row) {
        None => Err("no open conflict row with id="@ + int_text(row as int)),
        Some(i) => {
            let c = s.conflicts[i];
            Ok(
                StoreV {
                    conflicts: s.conflicts.update(
                        i,
                        ConflictV { status: "dismissed"@, ..c },
                    ),
                    ..s.logged(
                        ts,
                        author,
                        "conflict-dismiss"@,
                        c.old_id,
                        None,
                        Some(
                            "{\"row\":"@ + int_text(row as int) + ",\"new_id\":\""@ + c.new_id
                                + "\"}"@,
                        ),
                        reason,
                        ""@,
                    )
                },
            )
        },
    }
}

/// Whether a pair is in the queue, whatever became of it.
pub open spec fn is_queued(cs: Seq<ConflictV>, old: Seq<char>, new: Seq<char>) -> bool {
    exists|i: int| 0 <= i < cs.len() && (#[trigger] cs[i]).old_id == old && cs[i].new_id == new
}

/// The store with a suspected conflict queued, unless the pair is already.
pub open spec fn queued(
    s: StoreV,
    old_id: Seq<char>,
    new_id: Seq<char>,
    relation: Seq<char>,
    confidence: Rank,
    rationale: Seq<char>,
    ts: i64,
) -> StoreV {
    if is_queued(s.conflicts, old_id, new_id) {
        s
    } else {
        StoreV {
            conflicts: s.conflicts.push(
                ConflictV {
                    id: s.next_conflict as i64,
                    old_id,
                    new_id,
                    relation,
                    confidence: Some(confidence),
                    rationale,
                    status: "open"@,
                    created_at: ts,
                },
            ),
            next_conflict: s.next_conflict + 1,
            ..s
        }
    }
}

impl Conflict {
    /// The conflict with another status.
    fn with_status(&self, status: &str) -> (r: Conflict)
        ensures
            r@ == (ConflictV { status: status@, ..self@ }),
    {
        Conflict {
            id: self.id,
            old_id: self.old_id.clone(),
            new_id: self.new_id.clone(),
            relation: self.relation.clone(),
            confidence: self.confidence,
            rationale: self.rationale.clone(),
            status: status.to_owned(),
            created_at: self.created_at,
        }
    }
}

impl Store {
    /// Settles the open conflicts about a pair.
    fn settle_pair(&mut self, a: &str, b: &str)
        ensures
            final(self)@ == (StoreV {
                conflicts: pair_settled(old(self)@.conflicts, a@, b@),
                ..old(self)@
            }),
    {
        let ghost start = self@.conflicts;
        let ghost want = pair_settled(start, a@, b@);
        let mut i: usize = 0;
        while i < self.conflicts.len()
            invariant
                i <= self.conflicts@.len(),
                self.conflicts@.len() == start.len(),
                want == pair_settled(start, a@, b@),
                self@ == (StoreV { conflicts: self@.conflicts, ..old(self)@ }),
                forall|k: int| 0 <= k < i ==> (#[trigger] self.conflicts@[k])@ == want[k],
                forall|k: int|
                    i <= k < self.conflicts@.len() ==> (#[trigger] self.conflicts@[k])@ == start[k],
            decreases self.conflicts@.len() - i,
        {
            let c = &self.conflicts[i];
            assert(c@ == start[i as int]);
            if same(c.status.as_str(), "open") && ((same(c.old_id.as_str(), a) && same(
                c.new_id.as_str(),
                b,
            )) || (same(c.old_id.as_str(), b) && same(c.new_id.as_str(), a))) {
                let d = c.with_status("resolved");
                self.conflicts.set(i, d);
            }
            i = i + 1;
        }
        assert(conflicts_view(self.conflicts@) =~= want);
    }

    /// Settles the open conflicts that touch a memory.
    fn settle_memory(&mut self, id: &str)
        ensures
            final(self)@ == (StoreV {
                conflicts: memory_settled(old(self)@.conflicts, id@),
                ..old(self)@
            }),
    {
        let ghost start = self@.conflicts;
        let ghost want = memory_settled(start, id@);
        let mut i: usize = 0;
        while i < self.conflicts.len()
            invariant
                i <= self.conflicts@.len(),
                self.conflicts@.len() == start.len(),
                want == memory_settled(start, id@),
                self@ == (StoreV { conflicts: self@.conflicts, ..old(self)@ }),
                forall|k: int| 0 <= k < i ==> (#[trigger] self.conflicts@[k])@ == want[k],
                forall|k: int|
                    i <= k < self.conflicts@.len() ==> (#[trigger] self.conflicts@[k])@ == start[k],
            decreases self.conflicts@.len() - i,
        {
            let c = &self.conflicts[i];
            assert(c@ == start[i as int]);
            if same(c.status.as_str(), "open") && (same(c.old_id.as_str(), id) || same(
                c.new_id.as_str(),
                id,
            )) {
                let d = c.with_status("resolved");
                self.conflicts.set(i, d);
            }
            i = i + 1;
        }
        assert(conflicts_view(self.conflicts@) =~= want);
    }

    /// Adds an edge, unless there is one for the pair already.
    fn add_edge(&mut self, e: Edge)
        ensures
            final(self)@ == (StoreV { edges: edges_with(old(self)@.edges, e@), ..old(self)@ }),
    {
        let ghost es = self@.edges;
        if let Some(new) = &e.new_id {
            let mut i: usize = 0;
            while i < self.edges.len()
                invariant
                    i <= self.edges@.len(),
                    *self == *old(self),
                    es == self@.edges,
                    e@.new_id == Some(new@),
                    forall|k: int|
                        0 <= k < i ==> !((#[trigger] es[k]).old_id == e@.old_id && es[k].new_id
                            == Some(new@)),
                decreases self.edges@.len() - i,
            {
                assert(es[i as int] == self.edges@[i as int]@);
                let hit = match &self.edges[i].new_id {
                    Some(n) => same(n.as_str(), new.as_str()),
                    None => false,
                };
                if hit && same(self.edges[i].old_id.as_str(), e.old_id.as_str()) {
                    assert(has_edge(es, e@.old_id, new@));
                    return;
                }
                i = i + 1;
            }
        }
        let ghost before = self.edges@;
        self.edges.push(e);
        assert(edges_view(self.edges@) =~= edges_view(before).push(e@));
    }

    /// Marks one memory as replaced by another, whoever decided it: the memory
    /// leaves the topic index, an edge records the replacement, open conflicts
    /// about the pair are settled and the change is logged.
    pub fn apply_supersession(
        &mut self,
        old_id: &str,
        new_id: &str,
        kind: &str,
        reason: &str,
        confidence: Rank,
        actor: &str,
        ts: i64,
    ) -> (r: Result<(), String>)
        requires
            can_log(old(self)@),
        ensures
            agrees(
                r,
                old(self)@,
                final(self)@,
                supersession(
                    old(self)@,
                    old_id@,
                    new_id@,
                    kind@,
                    reason@,
                    confidence,
                    actor@,
                    ts,
                ),
            ),
    {
        if same(old_id, new_id) {
            return Err("a memory cannot supersede itself".to_string());
        }
        let i = match self.find(old_id) {
            Some(i) => i,
            None => {
                return Err(missing_memory(old_id));
            },
        };
        if self.find(new_id).is_none() {
            let mut e = "no successor memory with id=".to_string();
            e.append(new_id);
            return Err(e);
        }
        let before = self.memories[i].snapshot_text();
        let mut m = self.memories[i].copy();
        m.superseded_by = Some(new_id.to_owned());
        m.supersede_reason = Some(reason.to_owned());
        m.lifecycle = "superseded".to_string();
        m.updated_at = ts;
        if same(kind, "updates") && m.valid_to.is_none() {
            m.valid_to = Some(ts);
        }
        let after = m.snapshot_text();
        self.reindex(&m);
        self.put_memory(i, m);
        self.add_edge(
            Edge {
                old_id: old_id.to_owned(),
                new_id: Some(new_id.to_owned()),
                kind: kind.to_owned(),
                reason: reason.to_owned(),
                confidence,
                actor: actor.to_owned(),
                created_at: ts,
            },
        );
        self.log(ts, actor, "supersede", old_id, Some(before), Some(after), reason, "");
        self.settle_pair(old_id, new_id);
        Ok(())
    }

    /// Corrects a memory by hand: a supersession with full confidence.
    pub fn correct(&mut self, args: &CorrectArgs, author: &str, ts: i64) -> (r: Result<(), String>)
        requires
            can_log(old(self)@),
        ensures
            agrees(
                r,
                old(self)@,
                final(self)@,
                supersession(
                    old(self)@,
                    args.old@,
                    args.with_id@,
                    args.kind@,
                    args.reason@,
                    Rank { key: ONE_KEY },
                    author@,
                    ts,
                ),
            ),
    {
        self.apply_supersession(
            args.old.as_str(),
            args.with_id.as_str(),
            args.kind.as_str(),
            args.reason.as_str(),
            Rank { key: ONE_KEY },
            author,
            ts,
        )
    }

    /// Withdraws a memory without a successor.
    pub fn retract(&mut self, args: &RetractArgs, author: &str, ts: i64) -> (r: Result<(), String>)
        requires
            can_log(old(self)@),
        ensures
            agrees(
                r,
                old(self)@,
                final(self)@,
                retraction(old(self)@, args.id@, args.reason@, author@, ts),
            ),
    {
        if is_blank(args.reason.as_str()) {
            return Err("retract requires a non-empty --reason".to_string());
        }
        let i = match self.find(args.id.as_str()) {
            Some(i) => i,
            None => {
                return Err(missing_memory(args.id.as_str()));
            },
        };
        let before = self.memories[i].snapshot_text();
        let mut m = self.memories[i].copy();
        m.lifecycle = "retracted".to_string();
        m.is_active = false;
        m.updated_at = ts;
        let after = m.snapshot_text();
        self.reindex(&m);
        self.put_memory(i, m);
        self.add_edge(
            Edge {
                old_id: args.id.clone(),
                new_id: None,
                kind: "retracts".to_string(),
                reason: args.reason.clone(),
                confidence: Rank { key: ONE_KEY },
                actor: author.to_owned(),
                created_at: ts,
            },
        );
        self.settle_memory(args.id.as_str());
        self.log(
            ts,
            "agent",
            "retract",
            args.id.as_str(),
            Some(before),
            Some(after),
            args.reason.as_str(),
            "",
        );
        Ok(())
    }

    /// Stamps a memory as checked now.
    pub fn verify(&mut self, args: &VerifyArgs, ts: i64) -> (r: Result<(), String>)
        requires
            can_log(old(self)@),
        ensures
            agrees(
                r,
                old(self)@,
                final(self)@,
                verification(old(self)@, args.id@, args.note@, ts),
            ),
    {
        let i = match self.find(args.id.as_str()) {
            Some(i) => i,
            None => {
                return Err(missing_memory(args.id.as_str()));
            },
        };
        let before = self.memories[i].snapshot_text();
        let mut m = self.memories[i].copy();
        m.verified_at = Some(ts);
        m.updated_at = ts;
        let after = m.snapshot_text();
        self.put_memory(i, m);
        self.log(
            ts,
            "agent",
            "verify",
            args.id.as_str(),
            Some(before),
            Some(after),
            args.note.as_str(),
            "",
        );
        Ok(())
    }

    /// Dismisses a suspected conflict.
    pub fn dismiss_conflict(&mut self, row: i64, reason: &str, author: &str, ts: i64) -> (r: Result<
        (),
        String,
    >)
        requires
            can_log(old(self)@),
        ensures
            agrees(r, old(self)@, final(self)@, dismissal(old(self)@, row, reason@, author@, ts)),
    {
        let ghost cs = self@.conflicts;
        let mut i: usize = 0;
        while i < self.conflicts.len()
            invariant
                i <= self.conflicts@.len(),
                *self == *old(self),
                cs == self@.conflicts,
                can_log(old(self)@),
                open_conflict(cs.take(i as int), row) is None,
            decreases self.conflicts@.len() - i,
        {
            let c = &self.conflicts[i];
            assert(cs.take(i as int + 1).drop_last() =~= cs.take(i as int));
            assert(cs.take(i as int + 1).last() == c@);
            if c.id == row && same(c.status.as_str(), "open") {
                proof {
                    lemma_open_conflict_stays(cs, row, i as int + 1);
                }
                let d = c.with_status("dismissed");
                let about = c.old_id.clone();
                let mut note = "{\"row\":".to_string();
                note.append(i64_text(row).as_str());
                note.append(",\"new_id\":\"");
                note.append(c.new_id.as_str());
                note.append("\"}");
                let ghost before = self.conflicts@;
                self.conflicts.set(i, d);
                assert(conflicts_view(self.conflicts@) =~= cs.update(i as int, d@));
                self.log(
                    ts,
                    author,
                    "conflict-dismiss",
                    about.as_str(),
                    None,
                    Some(note),
                    reason,
                    "",
                );
                return Ok(());
            }
            i = i + 1;
        }
        assert(cs.take(i as int) =~= cs);
        let mut e = "no open conflict row with id=".to_string();
        e.append(i64_text(row).as_str());
        Err(e)
    }

    /// Queues a suspected conflict, unless the pair is queued already.
    pub fn queue_conflict(
        &mut self,
        old_id: &str,
        new_id: &str,
        relation: &str,
        confidence: Rank,
        rationale: &str,
        ts: i64,
    )
        requires
            old(self).next_conflict < i64::MAX,
        ensures
            final(self)@ == queued(
                old(self)@,
                old_id@,
                new_id@,
                relation@,
                confidence,
                rationale@,
                ts,
            ),
    {
        let ghost cs = self@.conflicts;
        let mut i: usize = 0;
        while i < self.conflicts.len()
            invariant
                i <= self.conflicts@.len(),
                *self == *old(self),
                cs == self@.conflicts,
                forall|k: int|
                    0 <= k < i ==> !((#[trigger] cs[k]).old_id == old_id@ && cs[k].new_id
                        == new_id@),
            decreases self.conflicts@.len() - i,
        {
            assert(cs[i as int] == self.conflicts@[i as int]@);
            if same(self.conflicts[i].old_id.as_str(), old_id) && same(
                self.conflicts[i].new_id.as_str(),
                new_id,
            ) {
                assert(is_queued(cs, old_id@, new_id@));
                return;
            }
            i = i + 1;
        }
        let c = Conflict {
            id: self.next_conflict,
            old_id: old_id.to_owned(),
            new_id: new_id.to_owned(),
            relation: relation.to_owned(),
            confidence: Some(confidence),
            rationale: rationale.to_owned(),
            status: "open".to_string(),
            created_at: ts,
        };
        let ghost before = self.conflicts@;
        self.conflicts.push(c);
        assert(conflicts_view(self.conflicts@) =~= conflicts_view(before).push(c@));
        self.next_conflict = self.next_conflict + 1;
    }
}

/// A conflict found among the first is the one found.
proof fn lemma_open_conflict_stays(cs: Seq<ConflictV>, row: i64, n: int)
    requires
        0 <= n <= cs.len(),
        open_conflict(cs.take(n), row) is Some,
    ensures
        open_conflict(cs, row) == open_conflict(cs.take(n), row),
    decreases cs.len() - n,
{
    if n < cs.len() {
        assert(cs.take(n + 1).drop_last() =~= cs.take(n));
        lemma_open_conflict_stays(cs, row, n + 1);
    } else {
        assert(cs.take(n) =~= cs);
    }
}

/// The arguments of a correction.
#[derive(Debug)]
pub struct CorrectArgs {
    /// The memory that no longer holds.
    pub old: String,
    /// The memory that replaces it.
    pub with_id: String,
    /// `corrects` or `updates`.
    pub kind: String,
    pub reason: String,
}

/// The arguments of a withdrawal.
#[derive(Debug)]
pub struct RetractArgs {
    pub id: String,
    pub reason: String,
}

/// The arguments of a verification.
#[derive(Debug)]
pub struct VerifyArgs {
    pub id: String,
    pub note: String,
}

} // verus!
