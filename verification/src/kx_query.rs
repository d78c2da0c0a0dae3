//! Browsing the knowledge index, and showing what was found in it.
use crate::history::{Printed, PrintedV};
use crate::json::{trees, Json, JsonObject, JsonV};
use crate::kx::{
    date_str, day_shown, filters_of, pointer, pointer_of, KxFilters, KxFiltersV, KxListArgs,
    KxSection, LIST_DEFAULT_LIMIT,
};
use crate::query::taken;
use crate::ranking::{is_within, within};
use crate::recall::{hits_in, hits_view, time_value, Hit, HitV};
use crate::render::say;
use crate::rows::{Memory, MemoryV};
use crate::sort::{at_most, ordered, top};
use crate::sql::{scope_filter, ScopeFilter, ScopeV};
use crate::store::Store;
use crate::text::{opt_text, same, texts};
use vstd::prelude::*;

verus! {

/// The fields that every answer gives of an entry.
pub open spec fn entry_fields(m: MemoryV) -> Map<Seq<char>, JsonV> {
    Map::empty().insert("id"@, JsonV::Str(m.id)).insert("name"@, JsonV::Str(m.name)).insert(
        "description"@,
        JsonV::Str(m.description),
    ).insert("tags"@, JsonV::Str(m.tags)).insert("valid_from"@, time_value(m.valid_from)).insert(
        "date"@,
        JsonV::Str(day_shown(m.valid_from)),
    )
}

/// An entry found by words.
pub open spec fn found_json(m: MemoryV) -> JsonV {
    JsonV::Object(entry_fields(m).insert("path"@, JsonV::Str(pointer(m.content))))
}

/// An entry found by meaning.
pub open spec fn recalled_json(m: MemoryV, h: HitV) -> JsonV {
    JsonV::Object(
        entry_fields(m).insert("path"@, JsonV::Str(pointer(m.content))).insert(
            "score"@,
            h.score,
        ).insert("cosine"@, h.cosine),
    )
}

/// An entry of a listing.
pub open spec fn listed_json(m: MemoryV) -> JsonV {
    JsonV::Object(entry_fields(m).insert("scope"@, JsonV::Str(m.scope)))
}

/// The line that says where an entry points to.
pub open spec fn pointer_line(m: MemoryV) -> Seq<char> {
    "  "@ + pointer(m.content) + "  ("@ + day_shown(m.valid_from) + ")  ["@ + m.tags + "]"@
}

/// The name and the description of an entry.
pub open spec fn title_of(m: MemoryV) -> Seq<char> {
    m.name + " — "@ + m.description
}

/// The lines of the entries found by words.
pub open spec fn found_lines(ms: Seq<MemoryV>) -> Seq<Seq<char>>
    decreases ms.len(),
{
    if ms.len() == 0 {
        Seq::empty()
    } else {
        found_lines(ms.drop_last()) + seq![title_of(ms.last()), pointer_line(ms.last())]
    }
}

/// The lines of the entries found by meaning.
pub open spec fn recalled_lines(ms: Seq<MemoryV>, hs: Seq<HitV>) -> Seq<Seq<char>>
    decreases hs.len(),
{
    if hs.len() == 0 {
        Seq::empty()
    } else {
        let h = hs.last();
        recalled_lines(ms, hs.drop_last()) + seq![
            "["@ + h.score_shown + "] "@ + title_of(ms[h.at]),
            pointer_line(ms[h.at]),
        ]
    }
}

/// The line of an entry in a listing.
pub open spec fn listing_line(m: MemoryV) -> Seq<char> {
    "["@ + m.id + "] "@ + m.name + " <"@ + m.scope + "> ("@ + day_shown(m.valid_from) + ") — "@
        + m.description + "  ["@ + m.tags + "]"@
}

/// Whether an entry is listed: in force, and within scope, tags and days.
pub open spec fn browsable(m: MemoryV, scope: ScopeV, f: KxFiltersV) -> bool {
    m.type_ == "kx"@ && m.in_force() && scope.admits(m.scope) && within(m, f)
}

/// The positions of the entries that are listed.
pub open spec fn browsed(ms: Seq<MemoryV>, scope: ScopeV, f: KxFiltersV) -> Seq<int>
    decreases ms.len(),
{
    if ms.len() == 0 {
        Seq::empty()
    } else {
        let init = browsed(ms.drop_last(), scope, f);
        if browsable(ms.last(), scope, f) {
            init.push(ms.len() - 1)
        } else {
            init
        }
    }
}

/// The entries of a listing, the one changed last first.
pub open spec fn listing(ms: Seq<MemoryV>, scope: ScopeV, f: KxFiltersV, limit: nat) -> Seq<MemoryV> {
    let at = browsed(ms, scope, f);
    let keys = at.map_values(|i: int| (ms[i].updated_at, 0i64));
    Seq::new(at_most(limit, at.len()), |i: int| ms[at[ordered(keys)[i] as int]])
}

/// What a listing prints.
pub open spec fn listing_shown(ms: Seq<MemoryV>, json: bool) -> PrintedV {
    if json {
        PrintedV::Json(
            JsonV::Object(
                Map::empty().insert(
                    "results"@,
                    JsonV::Array(ms.map_values(|m: MemoryV| listed_json(m))),
                ),
            ),
        )
    } else {
        PrintedV::Lines(ms.map_values(|m: MemoryV| listing_line(m)))
    }
}

/// Gathers the fields that every answer gives of an entry.
fn common_fields(m: &Memory) -> (r: JsonObject)
    ensures
        r.map() == entry_fields(m@),
{
    let mut o = JsonObject::new();
    o.insert_str("id", m.id.as_str());
    o.insert_str("name", m.name.as_str());
    o.insert_str("description", m.description.as_str());
    o.insert_str("tags", m.tags.as_str());
    match m.valid_from {
        Some(t) => o.insert_int("valid_from", t),
        None => o.insert("valid_from", Json::Null),
    }
    o.insert_str("date", date_str(m.valid_from).as_str());
    o
}

/// Writes where an entry points to.
fn write_pointer(m: &Memory) -> (r: String)
    ensures
        r@ == pointer_line(m@),
{
    let mut l = "  ".to_string();
    l.append(pointer_of(m.content.as_str()).as_str());
    l.append("  (");
    l.append(date_str(m.valid_from).as_str());
    l.append(")  [");
    l.append(m.tags.as_str());
    l.append("]");
    l
}

/// Writes the name and the description of an entry.
fn write_title(m: &Memory) -> (r: String)
    ensures
        r@ == title_of(m@),
{
    let mut l = m.name.clone();
    l.append(" — ");
    l.append(m.description.as_str());
    l
}

/// Writes the line of an entry in a listing.
fn write_listing(m: &Memory) -> (r: String)
    ensures
        r@ == listing_line(m@),
{
    let mut l = "[".to_string();
    l.append(m.id.as_str());
    l.append("] ");
    l.append(m.name.as_str());
    l.append(" <");
    l.append(m.scope.as_str());
    l.append("> (");
    l.append(date_str(m.valid_from).as_str());
    l.append(") — ");
    l.append(m.description.as_str());
    l.append("  [");
    l.append(m.tags.as_str());
    l.append("]");
    l
}

impl Store {
    /// The positions of the entries of a listing.
    fn browse(&self, scope: &ScopeFilter, f: &KxFilters, limit: usize) -> (r: Vec<usize>)
        ensures
            forall|i: int| 0 <= i < r@.len() ==> (#[trigger] r@[i]) < self.memories@.len(),
            taken(self@.memories, r@) == listing(self@.memories, scope@, f@, limit as nat),
    {
        let ghost ms = self@.memories;
        let mut found: Vec<usize> = Vec::new();
        let mut keys: Vec<(i64, i64)> = Vec::new();
        let ghost mut at: Seq<int> = Seq::empty();
        let mut i: usize = 0;
        assert(at =~= browsed(ms.take(0), scope@, f@));
        while i < self.memories.len()
            invariant
                ms == self@.memories,
                i <= self.memories@.len(),
                at == browsed(ms.take(i as int), scope@, f@),
                found@.len() == at.len(),
                keys@.len() == at.len(),
                forall|k: int| 0 <= k < at.len() ==> found@[k] == #[trigger] at[k],
                forall|k: int| 0 <= k < at.len() ==> 0 <= #[trigger] at[k] < i,
                forall|k: int|
                    0 <= k < at.len() ==> #[trigger] keys@[k] == (ms[at[k]].updated_at, 0i64),
            decreases self.memories@.len() - i,
        {
            let m = &self.memories[i];
            assert(ms[i as int] == m@);
            assert(ms.take(i as int + 1).drop_last() =~= ms.take(i as int));
            assert(ms.take(i as int + 1).last() == m@);
            if same(m.type_.as_str(), "kx") && m.is_in_force() && scope.admits(m.scope.as_str())
                && is_within(m, f) {
                found.push(i);
                keys.push((m.updated_at, 0));
                proof {
                    at = at.push(i as int);
                }
            }
            i = i + 1;
        }
        assert(ms.take(i as int) =~= ms);
        assert(keys@ =~= at.map_values(|i: int| (ms[i].updated_at, 0i64)));
        let out = top(&found, &keys, limit);
        assert forall|x: int| 0 <= x < out@.len() implies (#[trigger] out@[x])
            < self.memories@.len() by {
            let p = ordered(keys@)[x] as int;
            assert(found@[p] == at[p]);
        }
        assert(taken(ms, out@) =~= listing(ms, scope@, f@, limit as nat)) by {
            assert forall|x: int| 0 <= x < out@.len() implies taken(ms, out@)[x] == listing(
                ms,
                scope@,
                f@,
                limit as nat,
            )[x] by {
                let p = ordered(keys@)[x] as int;
                assert(found@[p] == at[p]);
            }
        }
        out
    }

    /// Lists the entries of the knowledge index.
    pub fn kx_list(&self, args: &KxListArgs) -> (r: Result<Printed, String>)
        ensures
            match filters_of(texts(args.tags@), opt_text(args.from), opt_text(args.to)) {
                Err(e) => r is Err && r->Err_0@ == e,
                Ok(f) => r is Ok && r->Ok_0@ == listing_shown(
                    listing(
                        self@.memories,
                        scope_filter(opt_text(args.scope)),
                        f,
                        match args.limit {
                            Some(n) => n as nat,
                            None => LIST_DEFAULT_LIMIT as nat,
                        },
                    ),
                    args.json,
                ),
            },
    {
        let f = match KxFilters::new(&args.tags, &args.from, &args.to) {
            Ok(f) => f,
            Err(e) => {
                return Err(e);
            },
        };
        let limit: usize = match args.limit {
            Some(n) => n,
            None => LIST_DEFAULT_LIMIT,
        };
        let at = self.browse(&ScopeFilter::for_explicit(&args.scope), &f, limit);
        let ghost ms = taken(self@.memories, at@);
        let mut items: Vec<Json> = Vec::new();
        let mut lines: Vec<String> = Vec::new();
        let mut i: usize = 0;
        while i < at.len()
            invariant
                i <= at@.len(),
                ms == taken(self@.memories, at@),
                forall|x: int| 0 <= x < at@.len() ==> (#[trigger] at@[x]) < self.memories@.len(),
                items@.len() == i,
                lines@.len() == i,
                forall|k: int| 0 <= k < i ==> (#[trigger] items@[k]).tree() == listed_json(ms[k]),
                forall|k: int| 0 <= k < i ==> (#[trigger] lines@[k])@ == listing_line(ms[k]),
            decreases at@.len() - i,
        {
            let m = &self.memories[at[i]];
            assert(ms[i as int] == m@);
            let mut o = common_fields(m);
            o.insert_str("scope", m.scope.as_str());
            items.push(o.done());
            lines.push(write_listing(m));
            i = i + 1;
        }
        if args.json {
            assert(trees(items@) =~= ms.map_values(|m: MemoryV| listed_json(m)));
            let mut o = JsonObject::new();
            o.insert("results", Json::Array(items));
            Ok(Printed::Json(o.done()))
        } else {
            assert(texts(lines@) =~= ms.map_values(|m: MemoryV| listing_line(m)));
            Ok(Printed::Lines(lines))
        }
    }

    /// Answers a search by words as JSON.
    pub fn kx_search_answer(&self, hits: &Vec<usize>, query: &str) -> (r: Json)
        requires
            forall|i: int| 0 <= i < hits@.len() ==> (#[trigger] hits@[i]) < self.memories@.len(),
        ensures
            r.tree() == JsonV::Object(
                Map::empty().insert("query"@, JsonV::Str(query@)).insert(
                    "results"@,
                    JsonV::Array(
                        taken(self@.memories, hits@).map_values(|m: MemoryV| found_json(m)),
                    ),
                ),
            ),
    {
        let ghost ms = taken(self@.memories, hits@);
        let mut items: Vec<Json> = Vec::new();
        let mut i: usize = 0;
        while i < hits.len()
            invariant
                i <= hits@.len(),
                ms == taken(self@.memories, hits@),
                forall|x: int| 0 <= x < hits@.len() ==> (#[trigger] hits@[x]) < self.memories@.len(),
                items@.len() == i,
                forall|k: int| 0 <= k < i ==> (#[trigger] items@[k]).tree() == found_json(ms[k]),
            decreases hits@.len() - i,
        {
            let m = &self.memories[hits[i]];
            assert(ms[i as int] == m@);
            let mut o = common_fields(m);
            o.insert_str("path", pointer_of(m.content.as_str()).as_str());
            items.push(o.done());
            i = i + 1;
        }
        assert(trees(items@) =~= ms.map_values(|m: MemoryV| found_json(m)));
        let mut o = JsonObject::new();
        o.insert_str("query", query);
        o.insert("results", Json::Array(items));
        o.done()
    }

    /// Shows the hits of a search by words.
    pub fn print_kx_search(&self, hits: &Vec<usize>) -> (r: Vec<String>)
        requires
            forall|i: int| 0 <= i < hits@.len() ==> (#[trigger] hits@[i]) < self.memories@.len(),
        ensures
            texts(r@) == seq!["## kx search\n"@] + found_lines(taken(self@.memories, hits@)),
    {
        let ghost ms = taken(self@.memories, hits@);
        let ghost head = seq!["## kx search\n"@];
        let mut out: Vec<String> = Vec::new();
        out.push("## kx search\n".to_string());
        let mut i: usize = 0;
        assert(texts(out@) =~= head + found_lines(ms.take(0)));
        while i < hits.len()
            invariant
                i <= hits@.len(),
                ms == taken(self@.memories, hits@),
                forall|x: int| 0 <= x < hits@.len() ==> (#[trigger] hits@[x]) < self.memories@.len(),
                texts(out@) == head + found_lines(ms.take(i as int)),
            decreases hits@.len() - i,
        {
            let m = &self.memories[hits[i]];
            assert(ms.take(i as int + 1).drop_last() =~= ms.take(i as int));
            assert(ms.take(i as int + 1).last() == m@);
            let ghost before = found_lines(ms.take(i as int));
            say(&mut out, write_title(m));
            say(&mut out, write_pointer(m));
            assert(texts(out@) =~= head + (before + seq![title_of(m@), pointer_line(m@)]));
            i = i + 1;
        }
        assert(ms.take(i as int) =~= ms);
        out
    }

    /// Answers a recall as JSON.
    pub fn kx_recall_answer(&self, hits: &Vec<Hit>, model: &str, query: &str) -> (r: Json)
        requires
            hits_in(self@.memories, hits@),
        ensures
            r.tree() == JsonV::Object(
                Map::empty().insert("model"@, JsonV::Str(model@)).insert(
                    "query"@,
                    JsonV::Str(query@),
                ).insert(
                    "results"@,
                    JsonV::Array(
                        hits_view(hits@).map_values(
                            |h: HitV| recalled_json(self@.memories[h.at], h),
                        ),
                    ),
                ),
            ),
    {
        let ghost hs = hits_view(hits@);
        let mut items: Vec<Json> = Vec::new();
        let mut i: usize = 0;
        while i < hits.len()
            invariant
                i <= hits@.len(),
                hits_in(self@.memories, hits@),
                hs == hits_view(hits@),
                items@.len() == i,
                forall|k: int|
                    0 <= k < i ==> (#[trigger] items@[k]).tree() == recalled_json(
                        self@.memories[hs[k].at],
                        hs[k],
                    ),
            decreases hits@.len() - i,
        {
            let h = &hits[i];
            assert(hs[i as int] == h@);
            let m = &self.memories[h.at];
            assert(self@.memories[h.at as int] == m@);
            let mut o = common_fields(m);
            o.insert_str("path", pointer_of(m.content.as_str()).as_str());
            o.insert("score", h.score.copy());
            o.insert("cosine", h.cosine.copy());
            items.push(o.done());
            i = i + 1;
        }
        assert(trees(items@) =~= hs.map_values(|h: HitV| recalled_json(self@.memories[h.at], h)));
        let mut o = JsonObject::new();
        o.insert_str("model", model);
        o.insert_str("query", query);
        o.insert("results", Json::Array(items));
        o.done()
    }

    /// Shows the hits of a recall, or that none reached the floor.
    pub fn print_kx_recall(&self, hits: &Vec<Hit>, model: &str, floor: &str) -> (r: Vec<String>)
        requires
            hits_in(self@.memories, hits@),
        ensures
            texts(r@) == seq!["## kx recall (model: "@ + model@ + ")\n"@] + (if hits@.len() == 0 {
                seq!["(no entries at or above min_score "@ + floor@ + ")"@]
            } else {
                recalled_lines(self@.memories, hits_view(hits@))
            }),
    {
        let ghost hs = hits_view(hits@);
        let mut l = "## kx recall (model: ".to_string();
        l.append(model);
        l.append(")\n");
        let ghost head = seq![l@];
        let mut out: Vec<String> = Vec::new();
        out.push(l);
        assert(texts(out@) =~= head);
        if hits.len() == 0 {
            let mut n = "(no entries at or above min_score ".to_string();
            n.append(floor);
            n.append(")");
            let ghost note = n@;
            say(&mut out, n);
            assert(texts(out@) =~= head + seq![note]);
            return out;
        }
        let mut i: usize = 0;
        assert(texts(out@) =~= head + recalled_lines(self@.memories, hs.take(0)));
        while i < hits.len()
            invariant
                i <= hits@.len(),
                hits_in(self@.memories, hits@),
                hs == hits_view(hits@),
                texts(out@) == head + recalled_lines(self@.memories, hs.take(i as int)),
            decreases hits@.len() - i,
        {
            let h = &hits[i];
            assert(hs.take(i as int + 1).drop_last() =~= hs.take(i as int));
            assert(hs.take(i as int + 1).last() == h@);
            let m = &self.memories[h.at];
            assert(self@.memories[h.at as int] == m@);
            let ghost before = recalled_lines(self@.memories, hs.take(i as int));
            let mut t = "[".to_string();
            t.append(h.score_shown.as_str());
            t.append("] ");
            t.append(write_title(m).as_str());
            let ghost first = t@;
            say(&mut out, t);
            say(&mut out, write_pointer(m));
            assert(texts(out@) =~= head + (before + seq![first, pointer_line(m@)]));
            i = i + 1;
        }
        assert(hs.take(i as int) =~= hs);
        out
    }
}

/// What a recall of the knowledge index answers where there is no embedder.
pub fn kx_no_embedder_answer(query: &str) -> (r: Json)
    ensures
        r.tree() == JsonV::Object(
            Map::empty().insert("query"@, JsonV::Str(query@)).insert(
                "results"@,
                JsonV::Array(Seq::empty()),
            ).insert(
                "error"@,
                JsonV::Str(
                    "no embedder available; kx recall needs an embedder (see [embed] config)"@,
                ),
            ),
        ),
{
    let none: Vec<Json> = Vec::new();
    assert(trees(none@) =~= Seq::<JsonV>::empty());
    let mut o = JsonObject::new();
    o.insert_str("query", query);
    o.insert("results", Json::Array(none));
    o.insert_str(
        "error",
        "no embedder available; kx recall needs an embedder (see [embed] config)",
    );
    o.done()
}

/// What is said where an ingest finds no corpus configured.
pub fn no_sources_answer(dry_run: bool) -> (r: Json)
    ensures
        r.tree() == JsonV::Object(
            Map::empty().insert("dry_run"@, JsonV::Bool(dry_run)).insert(
                "sources"@,
                JsonV::Array(Seq::empty()),
            ).insert("note"@, JsonV::Str("no [kx].sources configured"@)),
        ),
{
    let none: Vec<Json> = Vec::new();
    assert(trees(none@) =~= Seq::<JsonV>::empty());
    let mut o = JsonObject::new();
    o.insert_bool("dry_run", dry_run);
    o.insert("sources", Json::Array(none));
    o.insert_str("note", "no [kx].sources configured");
    o.done()
}

/// Whether corpora can be taken in with some settings: entries are only read
/// off the documents, so asking for summaries is refused.
pub fn check_ingest(cfg: &KxSection) -> (r: Result<(), String>)
    ensures
        match r {
            Ok(_) => !cfg.summarize,
            Err(e) => cfg.summarize && e@
                == "summarize=true not implemented until PR #2 (heuristic ingest only in PR #1)"@,
        },
{
    if cfg.summarize {
        return Err(
            "summarize=true not implemented until PR #2 (heuristic ingest only in PR #1)".to_string(),
        );
    }
    Ok(())
}

} // verus!
