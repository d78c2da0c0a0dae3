//! Reading memories: which are selected, in what order, and how many.
use crate::rows::{memories, Memory, MemoryV};
use crate::sort::{at_most, is_order, order_desc, ordered};
use crate::sql::{ScopeFilter, ScopeV};
use crate::store::Store;
use crate::text::{ascii_lower, contains, holds, opt_text, same, to_ascii_lower};
use vstd::prelude::*;

verus! {

/// What a reading asks of a memory.
#[derive(Debug)]
pub struct Query {
    /// The id or the name.
    pub key: Option<String>,
    pub type_: Option<String>,
    pub active_only: bool,
    pub lifecycle: Option<String>,
    pub scope: ScopeFilter,
    /// A part of the working directory, in whatever case.
    pub cwd_part: Option<String>,
    /// A part of the tags, in whatever case.
    pub tag_part: Option<String>,
}

/// What such a question is.
pub struct QueryV {
    pub key: Option<Seq<char>>,
    pub type_: Option<Seq<char>>,
    pub active_only: bool,
    pub lifecycle: Option<Seq<char>>,
    pub scope: ScopeV,
    pub cwd_part: Option<Seq<char>>,
    pub tag_part: Option<Seq<char>>,
}

impl View for Query {
    type V = QueryV;

    open spec fn view(&self) -> QueryV {
        QueryV {
            key: opt_text(self.key),
            type_: opt_text(self.type_),
            active_only: self.active_only,
            lifecycle: opt_text(self.lifecycle),
            scope: self.scope@,
            cwd_part: opt_text(self.cwd_part),
            tag_part: opt_text(self.tag_part),
        }
    }
}

/// Whether a text holds a part, in whatever case.
pub open spec fn like(s: Seq<char>, part: Seq<char>) -> bool {
    contains(ascii_lower(s), ascii_lower(part))
}

impl QueryV {
    /// Whether a memory is what is asked for.
    pub open spec fn admits(self, m: MemoryV) -> bool {
        &&& self.key is Some ==> m.id == self.key->0 || m.name == self.key->0
        &&& self.type_ is Some ==> m.type_ == self.type_->0
        &&& self.active_only ==> m.is_active
        &&& self.lifecycle is Some ==> m.lifecycle == self.lifecycle->0
        &&& self.scope.admits(m.scope)
        &&& self.cwd_part is Some ==> like(m.cwd, self.cwd_part->0)
        &&& self.tag_part is Some ==> like(m.tags, self.tag_part->0)
    }

    /// By what memories are ordered: the one with the id that was asked for
    /// first, then the newest.
    pub open spec fn key_of(self, m: MemoryV) -> (i64, i64) {
        (
            if self.key is Some && m.id == self.key->0 {
                1i64
            } else {
                0i64
            },
            m.updated_at,
        )
    }
}

/// The positions of the memories that are asked for, in stored order.
pub open spec fn admitted(ms: Seq<MemoryV>, q: QueryV) -> Seq<int>
    decreases ms.len(),
{
    if ms.len() == 0 {
        Seq::empty()
    } else {
        let init = admitted(ms.drop_last(), q);
        if q.admits(ms.last()) {
            init.push(ms.len() - 1)
        } else {
            init
        }
    }
}

/// The keys of the memories at some positions.
pub open spec fn keys_at(ms: Seq<MemoryV>, at: Seq<int>, q: QueryV) -> Seq<(i64, i64)> {
    at.map_values(|i: int| q.key_of(ms[i]))
}

/// The memories that are asked for, in order, at most `limit`.
pub open spec fn selected(ms: Seq<MemoryV>, q: QueryV, limit: nat) -> Seq<MemoryV> {
    let at = admitted(ms, q);
    let order = ordered(keys_at(ms, at, q));
    Seq::new(at_most(limit, at.len()), |i: int| ms[at[order[i] as int]])
}

/// Whether a text is absent or holds.
fn is_given(o: &Option<String>, x: &str) -> (r: bool)
    ensures
        r == (opt_text(*o) is Some ==> opt_text(*o)->0 == x@),
{
    match o {
        Some(s) => same(s.as_str(), x),
        None => true,
    }
}

/// Whether a part is absent or held.
fn is_part(o: &Option<String>, x: &str) -> (r: bool)
    ensures
        r == (opt_text(*o) is Some ==> like(x@, opt_text(*o)->0)),
{
    match o {
        Some(s) => holds(to_ascii_lower(x).as_str(), to_ascii_lower(s.as_str()).as_str()),
        None => true,
    }
}

impl Query {
    /// A question that admits everything.
    pub fn all() -> (r: Query)
        ensures
            r@ == (QueryV {
                key: None,
                type_: None,
                active_only: false,
                lifecycle: None,
                scope: ScopeV::All,
                cwd_part: None,
                tag_part: None,
            }),
    {
        Query {
            key: None,
            type_: None,
            active_only: false,
            lifecycle: None,
            scope: ScopeFilter::All,
            cwd_part: None,
            tag_part: None,
        }
    }

    /// Whether a memory is what is asked for.
    pub fn admits(&self, m: &Memory) -> (r: bool)
        ensures
            r == self@.admits(m@),
    {
        let keyed = match &self.key {
            Some(k) => same(m.id.as_str(), k.as_str()) || same(m.name.as_str(), k.as_str()),
            None => true,
        };
        keyed && is_given(&self.type_, m.type_.as_str()) && (!self.active_only || m.is_active)
            && is_given(&self.lifecycle, m.lifecycle.as_str()) && self.scope.admits(
            m.scope.as_str(),
        ) && is_part(&self.cwd_part, m.cwd.as_str()) && is_part(&self.tag_part, m.tags.as_str())
    }

    /// By what a memory is ordered.
    fn key_of(&self, m: &Memory) -> (r: (i64, i64))
        ensures
            r == self@.key_of(m@),
    {
        let first = match &self.key {
            Some(k) => same(m.id.as_str(), k.as_str()),
            None => false,
        };
        (
            if first {
                1i64
            } else {
                0i64
            },
            m.updated_at,
        )
    }
}

/// What the memories at some positions are.
pub open spec fn taken(ms: Seq<MemoryV>, at: Seq<usize>) -> Seq<MemoryV> {
    at.map_values(|i: usize| ms[i as int])
}

impl Store {
    /// The positions of the memories that are asked for, in order.
    pub fn select(&self, q: &Query, limit: usize) -> (r: Vec<usize>)
        ensures
            forall|i: int| 0 <= i < r@.len() ==> (#[trigger] r@[i]) < self.memories@.len(),
            taken(self@.memories, r@) == selected(self@.memories, q@, limit as nat),
    {
        let ghost ms = self@.memories;
        let mut found: Vec<usize> = Vec::new();
        let mut keys: Vec<(i64, i64)> = Vec::new();
        let mut i: usize = 0;
        let ghost mut at: Seq<int> = Seq::empty();
        assert(at =~= admitted(ms.take(0), q@));
        while i < self.memories.len()
            invariant
                ms == self@.memories,
                i <= self.memories@.len(),
                at == admitted(ms.take(i as int), q@),
                found@.len() == at.len(),
                keys@.len() == at.len(),
                forall|k: int| 0 <= k < at.len() ==> found@[k] == #[trigger] at[k],
                forall|k: int| 0 <= k < at.len() ==> 0 <= #[trigger] at[k] < i,
                forall|k: int| 0 <= k < at.len() ==> #[trigger] keys@[k] == q@.key_of(ms[at[k]]),
            decreases self.memories@.len() - i,
        {
            let m = &self.memories[i];
            assert(ms.take(i as int + 1).drop_last() =~= ms.take(i as int));
            assert(ms.take(i as int + 1).last() == m@);
            assert(ms[i as int] == m@);
            if q.admits(m) {
                found.push(i);
                keys.push(q.key_of(m));
                proof {
                    at = at.push(i as int);
                }
            }
            i = i + 1;
        }
        assert(ms.take(i as int) =~= ms);
        assert(keys@ =~= keys_at(ms, at, q@));
        let order = order_desc(&keys);
        let n: usize = if order.len() < limit {
            order.len()
        } else {
            limit
        };
        let mut out: Vec<usize> = Vec::new();
        let mut k: usize = 0;
        while k < n
            invariant
                k <= n <= order@.len(),
                is_order(keys@, order@),
                keys@.len() == found@.len(),
                found@.len() == at.len(),
                forall|x: int| 0 <= x < at.len() ==> found@[x] == #[trigger] at[x],
                forall|x: int|
                    0 <= x < at.len() ==> 0 <= #[trigger] at[x] < self.memories@.len(),
                out@.len() == k,
                forall|x: int| 0 <= x < k ==> #[trigger] out@[x] == at[order@[x] as int],
                forall|x: int| 0 <= x < k ==> (#[trigger] out@[x]) < self.memories@.len(),
            decreases n - k,
        {
            let p = order[k];
            assert(p < keys@.len());
            assert(found@[p as int] == at[p as int]);
            out.push(found[p]);
            k = k + 1;
        }
        assert(taken(ms, out@) =~= selected(ms, q@, limit as nat));
        out
    }

    /// The memories of a type that are in force, the newest first.
    pub fn query_by_type(&self, type_: &str, limit: usize, scope: &ScopeFilter) -> (r: Vec<usize>)
        ensures
            forall|i: int| 0 <= i < r@.len() ==> (#[trigger] r@[i]) < self.memories@.len(),
            taken(self@.memories, r@) == selected(
                self@.memories,
                by_type(type_@, scope@),
                limit as nat,
            ),
    {
        let copy = match scope {
            ScopeFilter::All => ScopeFilter::All,
            ScopeFilter::Only(v) => ScopeFilter::Only(crate::text::copy_texts(v)),
        };
        let q = Query {
            key: None,
            type_: Some(type_.to_owned()),
            active_only: true,
            lifecycle: Some("active".to_string()),
            scope: copy,
            cwd_part: None,
            tag_part: None,
        };
        self.select(&q, limit)
    }
}

/// The question for the memories of a type that are in force.
pub open spec fn by_type(type_: Seq<char>, scope: ScopeV) -> QueryV {
    QueryV {
        key: None,
        type_: Some(type_),
        active_only: true,
        lifecycle: Some("active"@),
        scope,
        cwd_part: None,
        tag_part: None,
    }
}

/// An admitted position is one of the store's, and what stands there is asked
/// for.
proof fn lemma_admitted(ms: Seq<MemoryV>, q: QueryV, k: int)
    requires
        0 <= k < admitted(ms, q).len(),
    ensures
        0 <= admitted(ms, q)[k] < ms.len(),
        q.admits(ms[admitted(ms, q)[k]]),
    decreases ms.len(),
{
    let init = ms.drop_last();
    if k < admitted(init, q).len() {
        lemma_admitted(init, q, k);
        assert(admitted(ms, q)[k] == admitted(init, q)[k]);
        assert(ms[admitted(init, q)[k]] == init[admitted(init, q)[k]]);
    }
}

/// No more are admitted than there are.
proof fn lemma_admitted_len(ms: Seq<MemoryV>, q: QueryV)
    ensures
        admitted(ms, q).len() <= ms.len(),
    decreases ms.len(),
{
    if ms.len() > 0 {
        lemma_admitted_len(ms.drop_last(), q);
    }
}

/// Whatever is selected is what was asked for, and no more than that many.
pub proof fn law_selection_admits(ms: Seq<MemoryV>, q: QueryV, limit: nat)
    requires
        ms.len() <= usize::MAX,
    ensures
        selected(ms, q, limit).len() <= limit,
        forall|i: int|
            0 <= i < selected(ms, q, limit).len() ==> q.admits(#[trigger] selected(ms, q, limit)[i])
                && ms.contains(selected(ms, q, limit)[i]),
{
    let at = admitted(ms, q);
    let keys = keys_at(ms, at, q);
    lemma_admitted_len(ms, q);
    crate::sort::lemma_order_exists(keys);
    let order = ordered(keys);
    assert forall|i: int| 0 <= i < selected(ms, q, limit).len() implies q.admits(
        #[trigger] selected(ms, q, limit)[i],
    ) && ms.contains(selected(ms, q, limit)[i]) by {
        assert(order[i] < keys.len());
        lemma_admitted(ms, q, order[i] as int);
    }
}

/// Nothing but memories in force is read for a session: archived, trashed,
/// superseded and withdrawn memories never are.
pub proof fn law_session_reads_what_is_in_force(
    ms: Seq<MemoryV>,
    type_: Seq<char>,
    scope: ScopeV,
    limit: nat,
)
    requires
        ms.len() <= usize::MAX,
    ensures
        forall|i: int|
            0 <= i < selected(ms, by_type(type_, scope), limit).len() ==> (#[trigger] selected(
                ms,
                by_type(type_, scope),
                limit,
            )[i]).in_force(),
{
    law_selection_admits(ms, by_type(type_, scope), limit);
}

} // verus!
