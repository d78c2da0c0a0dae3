//! From a superseded memory to the one in force: following the chain of
//! successors, and showing what was found.
use crate::json::{opt_json, trees, unsigned_number, Json, JsonObject, JsonV};
use crate::rows::{memories, MemoryV};
use crate::store::{position, EdgeV, Store, StoreV};
use crate::text::{
    copy_opt, is_listed, join, joined, lemma_texts_push, listed, opt_text, same, texts,
};
use vstd::prelude::*;

verus! {

/// The most steps that a chain of successors may have.
pub const RESOLVE_MAX_DEPTH: usize = 16;

impl StoreV {
    /// What replaced a memory; nothing for one that is not there.
    pub open spec fn successor(self, id: Seq<char>) -> Option<Seq<char>> {
        match self.get(id) {
            Some(m) => m.superseded_by,
            None => None,
        }
    }
}

/// The last of some steps, or where they start.
pub open spec fn reached(start: Seq<char>, hops: Seq<Seq<char>>) -> Seq<char> {
    if hops.len() == 0 {
        start
    } else {
        hops.last()
    }
}

/// The message for a chain that returns to itself.
pub open spec fn cycle_error(at: Seq<char>, start: Seq<char>, hops: Seq<Seq<char>>) -> Seq<char> {
    "supersession CYCLE at "@ + at + " (path: "@ + start + " → "@ + joined(hops, " → "@) + ")"@
}

/// The message for a chain that is too long.
pub open spec fn depth_error(start: Seq<char>) -> Seq<char> {
    "supersession chain from "@ + start + " exceeds 16 hops"@
}

/// Following successors from where `hops` end, up to a memory that has none.
/// Returning to a memory that was passed, or going beyond sixteen steps, is an
/// error.
pub open spec fn followed(s: StoreV, start: Seq<char>, hops: Seq<Seq<char>>) -> Result<
    Seq<Seq<char>>,
    Seq<char>,
>
    decreases 17 - hops.len(),
{
    match s.successor(reached(start, hops)) {
        None => Ok(hops),
        Some(n) => if n == start || listed(hops, n) {
            Err(cycle_error(n, start, hops))
        } else if hops.len() >= 16 {
            Err(depth_error(start))
        } else {
            followed(s, start, hops.push(n))
        },
    }
}

/// The steps from a memory to the one in force.
pub open spec fn resolved(s: StoreV, start: Seq<char>) -> Result<Seq<Seq<char>>, Seq<char>> {
    followed(s, start, Seq::empty())
}

/// Whether each step is the successor of the one before.
pub open spec fn is_chain(s: StoreV, start: Seq<char>, hops: Seq<Seq<char>>) -> bool {
    forall|i: int|
        0 <= i < hops.len() ==> s.successor(reached(start, hops.take(i))) == Some(
            #[trigger] hops[i],
        )
}

/// What is followed to the end is a chain that ends at a memory without a
/// successor.
proof fn lemma_followed_is_chain(s: StoreV, start: Seq<char>, hops: Seq<Seq<char>>)
    requires
        is_chain(s, start, hops),
        followed(s, start, hops) is Ok,
    ensures
        is_chain(s, start, followed(s, start, hops)->Ok_0),
        s.successor(reached(start, followed(s, start, hops)->Ok_0)) is None,
        followed(s, start, hops)->Ok_0.len() <= 17 || followed(s, start, hops)->Ok_0 == hops,
    decreases 17 - hops.len(),
{
    match s.successor(reached(start, hops)) {
        None => {},
        Some(n) => {
            let more = hops.push(n);
            assert forall|i: int| 0 <= i < more.len() implies s.successor(
                reached(start, more.take(i)),
            ) == Some(#[trigger] more[i]) by {
                if i < hops.len() {
                    assert(more.take(i) =~= hops.take(i));
                    assert(more[i] == hops[i]);
                } else {
                    assert(more.take(i) =~= hops);
                }
            }
            lemma_followed_is_chain(s, start, more);
        },
    }
}

/// No more steps are taken than allowed.
proof fn lemma_followed_bound(s: StoreV, start: Seq<char>, hops: Seq<Seq<char>>)
    requires
        hops.len() <= 16,
        followed(s, start, hops) is Ok,
    ensures
        followed(s, start, hops)->Ok_0.len() <= 16,
    decreases 17 - hops.len(),
{
    match s.successor(reached(start, hops)) {
        None => {},
        Some(n) => lemma_followed_bound(s, start, hops.push(n)),
    }
}

/// A resolved memory leads, successor by successor and in at most sixteen
/// steps, to one that has no successor.
pub proof fn law_resolved_reaches_the_head(s: StoreV, start: Seq<char>)
    requires
        resolved(s, start) is Ok,
    ensures
        is_chain(s, start, resolved(s, start)->Ok_0),
        s.successor(reached(start, resolved(s, start)->Ok_0)) is None,
        resolved(s, start)->Ok_0.len() <= 16,
{
    lemma_followed_is_chain(s, start, Seq::empty());
    lemma_followed_bound(s, start, Seq::empty());
}

/// Equal places of a chain stay equal.
proof fn lemma_chain_repeats(
    s: StoreV,
    start: Seq<char>,
    c: Seq<Seq<char>>,
    j: int,
    k: int,
    i: int,
)
    requires
        is_chain(s, start, c),
        0 <= j < k,
        0 <= i,
        k + i <= c.len(),
        reached(start, c.take(j)) == reached(start, c.take(k)),
    ensures
        reached(start, c.take(j + i)) == reached(start, c.take(k + i)),
    decreases i,
{
    if i > 0 {
        lemma_chain_repeats(s, start, c, j, k, i - 1);
        assert(s.successor(reached(start, c.take(j + i - 1))) == Some(c[j + i - 1]));
        assert(s.successor(reached(start, c.take(k + i - 1))) == Some(c[k + i - 1]));
        assert(c.take(j + i).last() == c[j + i - 1]);
        assert(c.take(k + i).last() == c[k + i - 1]);
    }
}

/// A chain that ends passes no memory twice.
proof fn lemma_ending_chain_is_simple(
    s: StoreV,
    start: Seq<char>,
    c: Seq<Seq<char>>,
    j: int,
    k: int,
)
    requires
        is_chain(s, start, c),
        s.successor(reached(start, c)) is None,
        0 <= j < k <= c.len(),
    ensures
        reached(start, c.take(j)) != reached(start, c.take(k)),
{
    if reached(start, c.take(j)) == reached(start, c.take(k)) {
        let i = c.len() - k;
        lemma_chain_repeats(s, start, c, j, k, i);
        assert(c.take(c.len() as int) =~= c);
        assert(s.successor(reached(start, c.take(j + i))) == Some(c[j + i]));
    }
}

/// Following from inside an ending chain gives the chain.
proof fn lemma_follow_from(s: StoreV, start: Seq<char>, c: Seq<Seq<char>>, k: int)
    requires
        is_chain(s, start, c),
        s.successor(reached(start, c)) is None,
        c.len() <= 16,
        0 <= k <= c.len(),
    ensures
        followed(s, start, c.take(k)) == Ok::<Seq<Seq<char>>, Seq<char>>(c),
    decreases c.len() - k,
{
    let hops = c.take(k);
    if k == c.len() {
        assert(hops =~= c);
    } else {
        let n = c[k];
        assert(s.successor(reached(start, hops)) == Some(n));
        assert(c.take(k + 1).last() == n);
        lemma_ending_chain_is_simple(s, start, c, 0, k + 1);
        assert(reached(start, c.take(0)) == start);
        if listed(hops, n) {
            let i = choose|i: int| 0 <= i < hops.len() && #[trigger] hops[i] == n;
            lemma_ending_chain_is_simple(s, start, c, i + 1, k + 1);
            assert(c.take(i + 1).last() == c[i]);
        }
        assert(hops.push(n) =~= c.take(k + 1));
        lemma_follow_from(s, start, c, k + 1);
    }
}

/// Whoever has a chain of at most sixteen successors that ends is resolved to
/// exactly that chain.
pub proof fn law_ending_chain_is_resolved(s: StoreV, start: Seq<char>, c: Seq<Seq<char>>)
    requires
        is_chain(s, start, c),
        s.successor(reached(start, c)) is None,
        c.len() <= 16,
    ensures
        resolved(s, start) == Ok::<Seq<Seq<char>>, Seq<char>>(c),
{
    assert(c.take(0) =~= Seq::<Seq<char>>::empty());
    lemma_follow_from(s, start, c, 0);
}

/// A memory without a successor is its own head.
pub proof fn law_current_memory_is_its_own_head(s: StoreV, start: Seq<char>)
    requires
        s.successor(start) is None,
    ensures
        resolved(s, start) == Ok::<Seq<Seq<char>>, Seq<char>>(Seq::empty()),
{
}

impl Store {
    /// What replaced a memory.
    pub fn successor_of(&self, id: &str) -> (r: Option<String>)
        ensures
            opt_text(r) == self@.successor(id@),
    {
        match self.get(id) {
            Some(m) => copy_opt(&m.superseded_by),
            None => None,
        }
    }

    /// Follows successors to the memory in force: the steps behind `start`,
    /// none where it is in force itself.
    pub fn resolve_current(&self, start: &str) -> (r: Result<Vec<String>, String>)
        ensures
            match r {
                Ok(h) => resolved(self@, start@) == Ok::<Seq<Seq<char>>, Seq<char>>(texts(h@)),
                Err(e) => resolved(self@, start@) == Err::<Seq<Seq<char>>, Seq<char>>(e@),
            },
    {
        let mut hops: Vec<String> = Vec::new();
        let mut cur = start.to_owned();
        assert(texts(hops@) =~= Seq::<Seq<char>>::empty());
        loop
            invariant
                hops@.len() <= 16,
                cur@ == reached(start@, texts(hops@)),
                resolved(self@, start@) == followed(self@, start@, texts(hops@)),
            decreases 17 - hops@.len(),
        {
            match self.successor_of(cur.as_str()) {
                None => {
                    return Ok(hops);
                },
                Some(n) => {
                    if same(n.as_str(), start) || is_listed(&hops, n.as_str()) {
                        let mut e = "supersession CYCLE at ".to_string();
                        e.append(n.as_str());
                        e.append(" (path: ");
                        e.append(start);
                        e.append(" → ");
                        e.append(join(&hops, " → ").as_str());
                        e.append(")");
                        return Err(e);
                    }
                    if hops.len() >= RESOLVE_MAX_DEPTH {
                        let mut e = "supersession chain from ".to_string();
                        e.append(start);
                        e.append(" exceeds 16 hops");
                        return Err(e);
                    }
                    proof {
                        lemma_texts_push(hops@, n);
                    }
                    cur = n.clone();
                    hops.push(n);
                },
            }
        }
    }
}

/// The position of the first memory with a name.
pub open spec fn named_position(ms: Seq<MemoryV>, name: Seq<char>) -> Option<int>
    decreases ms.len(),
{
    if ms.len() == 0 {
        None
    } else {
        match named_position(ms.drop_last(), name) {
            Some(i) => Some(i),
            None => if ms.last().name == name {
                Some(ms.len() - 1)
            } else {
                None
            },
        }
    }
}

/// The memory that a key means: the one with that id, else the first with that
/// name.
pub open spec fn lookup(ms: Seq<MemoryV>, key: Seq<char>) -> Option<int> {
    match position(ms, key) {
        Some(i) => Some(i),
        None => named_position(ms, key),
    }
}

/// The first edge from one memory to another.
pub open spec fn edge_between(es: Seq<EdgeV>, from: Seq<char>, to: Seq<char>) -> Option<EdgeV>
    decreases es.len(),
{
    if es.len() == 0 {
        None
    } else {
        match edge_between(es.drop_last(), from, to) {
            Some(e) => Some(e),
            None => if es.last().old_id == from && es.last().new_id == Some(to) {
                Some(es.last())
            } else {
                None
            },
        }
    }
}

/// One step of a chain as it is shown: from, to, and the edge's kind and
/// reason where there is one.
pub struct HopV {
    pub from: Seq<char>,
    pub to: Seq<char>,
    pub kind: Option<Seq<char>>,
    pub reason: Option<Seq<char>>,
}

/// One step of a chain.
#[derive(Debug)]
pub struct Hop {
    pub from: String,
    pub to: String,
    pub kind: Option<String>,
    pub reason: Option<String>,
}

impl View for Hop {
    type V = HopV;

    open spec fn view(&self) -> HopV {
        HopV {
            from: self.from@,
            to: self.to@,
            kind: opt_text(self.kind),
            reason: opt_text(self.reason),
        }
    }
}

/// What a list of steps is.
pub open spec fn hops_view(v: Seq<Hop>) -> Seq<HopV> {
    v.map_values(|h: Hop| h@)
}

/// A step with what its edge says; an empty reason counts as none.
pub open spec fn annotated_hop(es: Seq<EdgeV>, from: Seq<char>, to: Seq<char>) -> HopV {
    match edge_between(es, from, to) {
        Some(e) => HopV {
            from,
            to,
            kind: Some(e.kind),
            reason: if e.reason.len() > 0 {
                Some(e.reason)
            } else {
                None
            },
        },
        None => HopV { from, to, kind: None, reason: None },
    }
}

/// The steps of a chain with what their edges say.
pub open spec fn annotated(es: Seq<EdgeV>, start: Seq<char>, hops: Seq<Seq<char>>) -> Seq<HopV> {
    Seq::new(hops.len(), |i: int| annotated_hop(es, reached(start, hops.take(i)), hops[i]))
}

impl Store {
    /// The memory that a key means.
    pub fn lookup(&self, key: &str) -> (r: Option<usize>)
        ensures
            match r {
                Some(i) => i < self.memories@.len() && lookup(self@.memories, key@) == Some(
                    i as int,
                ),
                None => lookup(self@.memories, key@) is None,
            },
    {
        if let Some(i) = self.find(key) {
            return Some(i);
        }
        let ghost ms = self@.memories;
        let mut i: usize = 0;
        while i < self.memories.len()
            invariant
                ms == self@.memories,
                position(ms, key@) is None,
                i <= self.memories@.len(),
                named_position(ms.take(i as int), key@) is None,
            decreases self.memories@.len() - i,
        {
            assert(ms.take(i as int + 1).drop_last() =~= ms.take(i as int));
            assert(ms.take(i as int + 1).last() == self.memories@[i as int]@);
            if same(self.memories[i].name.as_str(), key) {
                proof {
                    lemma_named_stays(ms, key@, i as int + 1);
                }
                return Some(i);
            }
            i = i + 1;
        }
        assert(ms.take(i as int) =~= ms);
        None
    }

    /// A step with what its edge says.
    fn annotate(&self, from: &str, to: &str) -> (r: Hop)
        ensures
            r@ == annotated_hop(self@.edges, from@, to@),
    {
        let ghost es = self@.edges;
        let mut i: usize = 0;
        while i < self.edges.len()
            invariant
                es == self@.edges,
                i <= self.edges@.len(),
                edge_between(es.take(i as int), from@, to@) is None,
            decreases self.edges@.len() - i,
        {
            let e = &self.edges[i];
            assert(es.take(i as int + 1).drop_last() =~= es.take(i as int));
            assert(es.take(i as int + 1).last() == e@);
            let hit = match &e.new_id {
                Some(n) => same(n.as_str(), to),
                None => false,
            };
            if hit && same(e.old_id.as_str(), from) {
                proof {
                    lemma_edge_stays(es, from@, to@, i as int + 1);
                }
                let reason = if e.reason.as_str().is_empty() {
                    None
                } else {
                    Some(e.reason.clone())
                };
                return Hop {
                    from: from.to_owned(),
                    to: to.to_owned(),
                    kind: Some(e.kind.clone()),
                    reason,
                };
            }
            i = i + 1;
        }
        assert(es.take(i as int) =~= es);
        Hop { from: from.to_owned(), to: to.to_owned(), kind: None, reason: None }
    }

    /// The steps of a chain with what their edges say.
    pub fn annotate_hops(&self, start: &str, hops: &Vec<String>) -> (r: Vec<Hop>)
        ensures
            hops_view(r@) == annotated(self@.edges, start@, texts(hops@)),
    {
        let ghost hs = texts(hops@);
        let mut out: Vec<Hop> = Vec::new();
        let mut from = start.to_owned();
        let mut i: usize = 0;
        while i < hops.len()
            invariant
                hs == texts(hops@),
                i <= hops@.len(),
                out@.len() == i,
                from@ == reached(start@, hs.take(i as int)),
                forall|k: int|
                    0 <= k < i ==> (#[trigger] out@[k])@ == annotated_hop(
                        self@.edges,
                        reached(start@, hs.take(k)),
                        hs[k],
                    ),
            decreases hops@.len() - i,
        {
            assert(hs[i as int] == hops@[i as int]@);
            out.push(self.annotate(from.as_str(), hops[i].as_str()));
            from = hops[i].clone();
            assert(hs.take(i as int + 1).last() == hs[i as int]);
            i = i + 1;
        }
        assert(hops_view(out@) =~= annotated(self@.edges, start@, hs));
        out
    }
}

/// A name found among the first is the one found.
proof fn lemma_named_stays(ms: Seq<MemoryV>, name: Seq<char>, n: int)
    requires
        0 <= n <= ms.len(),
        named_position(ms.take(n), name) is Some,
    ensures
        named_position(ms, name) == named_position(ms.take(n), name),
    decreases ms.len() - n,
{
    if n < ms.len() {
        assert(ms.take(n + 1).drop_last() =~= ms.take(n));
        lemma_named_stays(ms, name, n + 1);
    } else {
        assert(ms.take(n) =~= ms);
    }
}

/// An edge found among the first is the one found.
proof fn lemma_edge_stays(es: Seq<EdgeV>, from: Seq<char>, to: Seq<char>, n: int)
    requires
        0 <= n <= es.len(),
        edge_between(es.take(n), from, to) is Some,
    ensures
        edge_between(es, from, to) == edge_between(es.take(n), from, to),
    decreases es.len() - n,
{
    if n < es.len() {
        assert(es.take(n + 1).drop_last() =~= es.take(n));
        lemma_edge_stays(es, from, to, n + 1);
    } else {
        assert(es.take(n) =~= es);
    }
}

/// A step as JSON.
pub open spec fn hop_json(h: HopV) -> JsonV {
    JsonV::Object(
        Map::empty().insert("from"@, JsonV::Str(h.from)).insert("to"@, JsonV::Str(h.to)).insert(
            "kind"@,
            opt_json(h.kind),
        ).insert("reason"@, opt_json(h.reason)),
    )
}

/// A resolution as JSON.
pub open spec fn resolution_json(start: Seq<char>, hops: Seq<Seq<char>>, edges: Seq<HopV>) -> JsonV {
    JsonV::Object(
        Map::empty().insert("start"@, JsonV::Str(start)).insert(
            "head"@,
            JsonV::Str(reached(start, hops)),
        ).insert("depth"@, JsonV::Number(unsigned_number(hops.len() as u64))).insert(
            "current"@,
            JsonV::Bool(hops.len() == 0),
        ).insert("hops"@, JsonV::Array(edges.map_values(|h: HopV| hop_json(h)))),
    )
}

/// The line of a step.
pub open spec fn hop_line(h: HopV) -> Seq<char> {
    let kind = match h.kind {
        Some(k) => k,
        None => "superseded-by (untyped, pre-v9)"@,
    };
    match h.reason {
        Some(r) => "  → "@ + kind + " → "@ + h.to + "  ("@ + r + ")"@,
        None => "  → "@ + kind + " → "@ + h.to,
    }
}

/// A resolution as lines.
pub open spec fn resolution_lines(
    start: Seq<char>,
    hops: Seq<Seq<char>>,
    edges: Seq<HopV>,
) -> Seq<Seq<char>> {
    if hops.len() == 0 {
        seq![start + " is current (no supersession)"@]
    } else {
        seq![start] + edges.map_values(|h: HopV| hop_line(h)) + seq![
            "current: "@ + reached(start, hops),
        ]
    }
}

/// What is printed for a resolution.
pub enum ResolutionV {
    Json(JsonV),
    Lines(Seq<Seq<char>>),
}

/// What is printed for a resolution.
pub enum Resolution {
    Json(Json),
    Lines(Vec<String>),
}

impl View for Resolution {
    type V = ResolutionV;

    open spec fn view(&self) -> ResolutionV {
        match self {
            Resolution::Json(j) => ResolutionV::Json(j.tree()),
            Resolution::Lines(v) => ResolutionV::Lines(texts(v@)),
        }
    }
}

/// The arguments of a resolution.
#[derive(Debug)]
pub struct ResolveArgs {
    /// An id or a name.
    pub key: String,
    pub json: bool,
}

/// What a resolution prints, or why it fails.
pub open spec fn resolution(s: StoreV, key: Seq<char>, json: bool) -> Result<
    ResolutionV,
    Seq<char>,
> {
    match lookup(s.memories, key) {
        None => Err("no memory found for id/name="@ + key),
        Some(i) => {
            let start = s.memories[i].id;
            match resolved(s, start) {
                Err(e) => Err(e),
                Ok(hops) => {
                    let edges = annotated(s.edges, start, hops);
                    Ok(
                        if json {
                            ResolutionV::Json(resolution_json(start, hops, edges))
                        } else {
                            ResolutionV::Lines(resolution_lines(start, hops, edges))
                        },
                    )
                },
            }
        },
    }
}

/// Writes a step as JSON.
fn hop_to_json(h: &Hop) -> (r: Json)
    ensures
        r.tree() == hop_json(h@),
{
    let mut o = JsonObject::new();
    o.insert_str("from", h.from.as_str());
    o.insert_str("to", h.to.as_str());
    o.insert_opt("kind", &h.kind);
    o.insert_opt("reason", &h.reason);
    o.done()
}

/// Writes a step as a line.
fn hop_to_line(h: &Hop) -> (r: String)
    ensures
        r@ == hop_line(h@),
{
    let kind = match &h.kind {
        Some(k) => k.as_str(),
        None => "superseded-by (untyped, pre-v9)",
    };
    let mut l = "  → ".to_string();
    l.append(kind);
    l.append(" → ");
    l.append(h.to.as_str());
    if let Some(r) = &h.reason {
        l.append("  (");
        l.append(r.as_str());
        l.append(")");
    }
    l
}

impl Store {
    /// Walks from a memory to the one in force and shows every step.
    pub fn resolve(&self, args: &ResolveArgs) -> (r: Result<Resolution, String>)
        ensures
            match r {
                Ok(x) => resolution(self@, args.key@, args.json) == Ok::<ResolutionV, Seq<char>>(
                    x@,
                ),
                Err(e) => resolution(self@, args.key@, args.json) == Err::<ResolutionV, Seq<char>>(
                    e@,
                ),
            },
    {
        let i = match self.lookup(args.key.as_str()) {
            Some(i) => i,
            None => {
                let mut e = "no memory found for id/name=".to_string();
                e.append(args.key.as_str());
                return Err(e);
            },
        };
        let start = self.memories[i].id.clone();
        let hops = match self.resolve_current(start.as_str()) {
            Ok(h) => h,
            Err(e) => {
                return Err(e);
            },
        };
        let edges = self.annotate_hops(start.as_str(), &hops);
        let ghost hs = texts(hops@);
        let ghost es = hops_view(edges@);
        assert(hs.len() == hops@.len());
        let head = if hops.len() == 0 {
            start.clone()
        } else {
            assert(hs.last() == hops@[hops@.len() - 1]@);
            hops[hops.len() - 1].clone()
        };
        if args.json {
            let mut items: Vec<Json> = Vec::new();
            let mut k: usize = 0;
            while k < edges.len()
                invariant
                    k <= edges@.len(),
                    items@.len() == k,
                    forall|x: int| 0 <= x < k ==> (#[trigger] items@[x]).tree() == hop_json(edges@[x]@),
                decreases edges@.len() - k,
            {
                items.push(hop_to_json(&edges[k]));
                k = k + 1;
            }
            assert(trees(items@) =~= es.map_values(|h: HopV| hop_json(h)));
            let mut o = JsonObject::new();
            o.insert_str("start", start.as_str());
            o.insert_str("head", head.as_str());
            o.insert_unsigned("depth", hops.len() as u64);
            o.insert_bool("current", hops.len() == 0);
            o.insert("hops", Json::Array(items));
            return Ok(Resolution::Json(o.done()));
        }
        let mut out: Vec<String> = Vec::new();
        if hops.len() == 0 {
            let mut l = start.clone();
            l.append(" is current (no supersession)");
            out.push(l);
            assert(texts(out@) =~= seq![start@ + " is current (no supersession)"@]);
            return Ok(Resolution::Lines(out));
        }
        out.push(start.clone());
        let mut k: usize = 0;
        while k < edges.len()
            invariant
                k <= edges@.len(),
                out@.len() == k + 1,
                out@[0]@ == start@,
                forall|x: int|
                    0 <= x < k ==> (#[trigger] out@[x + 1])@ == hop_line(edges@[x]@),
            decreases edges@.len() - k,
        {
            let ghost before = out@;
            let l = hop_to_line(&edges[k]);
            out.push(l);
            assert forall|x: int| 0 <= x < k + 1 implies (#[trigger] out@[x + 1])@ == hop_line(
                edges@[x]@,
            ) by {
                if x < k {
                    assert(out@[x + 1] == before[x + 1]);
                }
            }
            k = k + 1;
        }
        let mut l = "current: ".to_string();
        l.append(head.as_str());
        let ghost before = out@;
        out.push(l);
        proof {
            let want = resolution_lines(start@, hs, es);
            assert(es.len() == hs.len());
            assert(texts(out@).len() == want.len());
            assert forall|x: int| 0 <= x < want.len() implies texts(out@)[x] == want[x] by {
                if x == 0 {
                } else if x < want.len() - 1 {
                    assert(out@[x] == before[x]);
                    assert(before[(x - 1) + 1]@ == hop_line(edges@[x - 1]@));
                }
            }
            assert(texts(out@) =~= want);
        }
        Ok(Resolution::Lines(out))
    }
}

} // verus!
