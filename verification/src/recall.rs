//! Recalling memories by meaning: what is shown and logged of a recall, what
//! the log says of past ones, and what has to be embedded anew.
use crate::dates::fmt_ts;
use crate::json::{int_number, json_text, str_field, texts_json, trees, Json, JsonObject, JsonV};
use crate::kernel::array_items;
use crate::render::{
    after, day, heading, indent, indented, label, say, say_all, trust_label, write_heading,
};
use crate::rows::{Memory, MemoryV};
use crate::sort::{at_most, is_order, order_desc, ordered};
use crate::store::{Rank, Store};
use crate::text::{
    copy_opt, decimal, i64_text, int_text, is_listed, join, joined, lemma_texts_push, listed,
    opt_text, pad_left, padded_left, same, texts, usize_text,
};
use crate::tokens::{tokenize, tokens};
use vstd::prelude::*;

verus! {

/// The arguments of a recall.
#[derive(Debug)]
pub struct RecallArgs {
    pub query: String,
    pub k: usize,
    pub type_: Option<String>,
    pub compare: bool,
    pub scope: Option<String>,
    pub json: bool,
    pub full: bool,
    /// `v1` or `legacy`.
    pub rank: String,
}

impl RecallArgs {
    /// Whether superseded matches are credited to the memories in force, and
    /// trust, freshness and ties are weighed.
    pub fn credits(&self) -> (r: bool)
        ensures
            r == (self.rank@ == "v1"@),
    {
        same(self.rank.as_str(), "v1")
    }
}

/// The arguments of a search by words.
#[derive(Debug)]
pub struct SearchArgs {
    pub query: String,
    pub type_: Option<String>,
    pub limit: usize,
    pub scope: Option<String>,
    pub author: Option<String>,
}

/// The search by words that a recall falls back to, or compares with.
pub fn fallback_search(args: &RecallArgs) -> (r: SearchArgs)
    ensures
        r.query@ == args.query@,
        opt_text(r.type_) == opt_text(args.type_),
        r.limit == args.k,
        opt_text(r.scope) == opt_text(args.scope),
        r.author is None,
{
    SearchArgs {
        query: args.query.clone(),
        type_: copy_opt(&args.type_),
        limit: args.k,
        scope: copy_opt(&args.scope),
        author: None,
    }
}

/// One hit of a recall: a memory by position, its score and similarity as JSON
/// and as they are shown, the superseded memory that it was found through, and
/// the hits that may contradict it.
pub struct Hit {
    pub at: usize,
    pub score: Json,
    pub cosine: Json,
    pub score_shown: String,
    pub cosine_shown: String,
    pub via: Option<String>,
    pub conflicts: Vec<String>,
}

/// What a hit is.
pub struct HitV {
    pub at: int,
    pub score: JsonV,
    pub cosine: JsonV,
    pub score_shown: Seq<char>,
    pub cosine_shown: Seq<char>,
    pub via: Option<Seq<char>>,
    pub conflicts: Seq<Seq<char>>,
}

impl View for Hit {
    type V = HitV;

    open spec fn view(&self) -> HitV {
        HitV {
            at: self.at as int,
            score: self.score.tree(),
            cosine: self.cosine.tree(),
            score_shown: self.score_shown@,
            cosine_shown: self.cosine_shown@,
            via: opt_text(self.via),
            conflicts: texts(self.conflicts@),
        }
    }
}

/// What a list of hits is.
pub open spec fn hits_view(v: Seq<Hit>) -> Seq<HitV> {
    v.map_values(|h: Hit| h@)
}

/// An optional time as JSON.
pub open spec fn time_value(t: Option<i64>) -> JsonV {
    match t {
        Some(i) => JsonV::Number(int_number(i)),
        None => JsonV::Null,
    }
}

/// The label of a recalled memory.
pub open spec fn recall_label(m: MemoryV) -> Seq<char> {
    label(m.created_at, m.verified_at, m.lifecycle, None, m.author)
}

/// A hit as JSON.
pub open spec fn hit_json(m: MemoryV, h: HitV, v1: bool, full: bool) -> JsonV {
    let o = Map::empty().insert("id"@, JsonV::Str(m.id)).insert("type"@, JsonV::Str(m.type_)).insert(
        "name"@,
        JsonV::Str(m.name),
    ).insert("description"@, JsonV::Str(m.description)).insert("tags"@, JsonV::Str(m.tags)).insert(
        "updated_at"@,
        JsonV::Number(int_number(m.updated_at)),
    ).insert("score"@, h.score).insert(
        "created_at"@,
        JsonV::Number(int_number(m.created_at)),
    ).insert("verified_at"@, time_value(m.verified_at)).insert(
        "lifecycle"@,
        JsonV::Str(m.lifecycle),
    ).insert("author"@, JsonV::Str(m.author)).insert("trust"@, JsonV::Str(recall_label(m)));
    let o = if v1 {
        o.insert("cosine"@, h.cosine)
    } else {
        o
    };
    let o = match h.via {
        Some(v) => o.insert("matched_via_superseded"@, JsonV::Str(v)),
        None => o,
    };
    let o = if h.conflicts.len() > 0 {
        o.insert("possible_conflict_with"@, texts_json(h.conflicts))
    } else {
        o
    };
    if full {
        JsonV::Object(o.insert("content"@, JsonV::Str(m.content)))
    } else {
        JsonV::Object(o)
    }
}

/// A hit as lines.
pub open spec fn hit_lines(m: MemoryV, h: HitV, v1: bool, full: bool) -> Seq<Seq<char>> {
    let badge = if v1 {
        "["@ + h.score_shown + "|c"@ + h.cosine_shown + "]"@
    } else {
        "["@ + h.score_shown + "]"@
    };
    seq![badge + " "@ + heading(m, day(m.updated_at)), "  "@ + recall_label(m)] + (match h.via {
        Some(v) => seq!["  matched via superseded "@ + v],
        None => Seq::empty(),
    }) + (if h.conflicts.len() > 0 {
        seq!["  possible-conflict-with: "@ + joined(h.conflicts, ", "@)]
    } else {
        Seq::empty()
    }) + (if full {
        seq![indented(m.content, "  "@) + "\n"@]
    } else {
        Seq::empty()
    })
}

/// Hits as lines.
pub open spec fn hits_lines(ms: Seq<MemoryV>, hs: Seq<HitV>, v1: bool, full: bool) -> Seq<Seq<char>>
    decreases hs.len(),
{
    if hs.len() == 0 {
        Seq::empty()
    } else {
        hits_lines(ms, hs.drop_last(), v1, full) + hit_lines(
            ms[hs.last().at],
            hs.last(),
            v1,
            full,
        )
    }
}

/// What a recall answers as JSON: the hits, or why there are none.
pub open spec fn recall_json(
    ms: Seq<MemoryV>,
    hs: Seq<HitV>,
    model: Seq<char>,
    query: Seq<char>,
    v1: bool,
    full: bool,
) -> JsonV {
    let o = Map::empty().insert("model"@, JsonV::Str(model)).insert("query"@, JsonV::Str(query));
    if hs.len() == 0 {
        JsonV::Object(
            o.insert("results"@, JsonV::Array(Seq::empty())).insert(
                "error"@,
                JsonV::Str(
                    "no embeddings found for model '"@ + model
                        + "'; run `agent memory reindex` first"@,
                ),
            ),
        )
    } else {
        JsonV::Object(
            o.insert(
                "results"@,
                JsonV::Array(hs.map_values(|h: HitV| hit_json(ms[h.at], h, v1, full))),
            ),
        )
    }
}

/// Whether hits are memories of a store.
pub open spec fn hits_in(ms: Seq<MemoryV>, hs: Seq<Hit>) -> bool {
    forall|i: int| 0 <= i < hs.len() ==> (#[trigger] hs[i]).at < ms.len()
}

/// Writes the label of a recalled memory.
fn write_recall_label(m: &Memory) -> (r: String)
    ensures
        r@ == recall_label(m@),
{
    let none: Option<String> = None;
    trust_label(m.created_at, m.verified_at, m.lifecycle.as_str(), &none, m.author.as_str())
}

/// Writes a hit as JSON.
fn hit_to_json(m: &Memory, h: &Hit, v1: bool, full: bool) -> (r: Json)
    ensures
        r.tree() == hit_json(m@, h@, v1, full),
{
    let mut o = JsonObject::new();
    o.insert_str("id", m.id.as_str());
    o.insert_str("type", m.type_.as_str());
    o.insert_str("name", m.name.as_str());
    o.insert_str("description", m.description.as_str());
    o.insert_str("tags", m.tags.as_str());
    o.insert_int("updated_at", m.updated_at);
    o.insert("score", h.score.copy());
    o.insert_int("created_at", m.created_at);
    match m.verified_at {
        Some(t) => o.insert_int("verified_at", t),
        None => o.insert("verified_at", Json::Null),
    }
    o.insert_str("lifecycle", m.lifecycle.as_str());
    o.insert_str("author", m.author.as_str());
    o.insert_str("trust", write_recall_label(m).as_str());
    if v1 {
        o.insert("cosine", h.cosine.copy());
    }
    if let Some(v) = &h.via {
        o.insert_str("matched_via_superseded", v.as_str());
    }
    assert(texts(h.conflicts@).len() == h.conflicts@.len());
    if h.conflicts.len() > 0 {
        o.insert_texts("possible_conflict_with", &h.conflicts);
    }
    if full {
        o.insert_str("content", m.content.as_str());
    }
    o.done()
}

/// Writes a hit as lines.
fn hit_to_lines(m: &Memory, h: &Hit, v1: bool, full: bool) -> (r: Vec<String>)
    ensures
        texts(r@) == hit_lines(m@, h@, v1, full),
{
    let mut l = "[".to_string();
    l.append(h.score_shown.as_str());
    if v1 {
        l.append("|c");
        l.append(h.cosine_shown.as_str());
    }
    l.append("]");
    let ghost badge = l@;
    let head = write_heading(m, fmt_ts(m.updated_at).as_str());
    l.append(" ");
    l.append(head.as_str());
    let mut out: Vec<String> = Vec::new();
    out.push(l);
    out.push(after("  ", write_recall_label(m).as_str()));
    let ghost first = seq![
        badge + " "@ + heading(m@, day(m@.updated_at)),
        "  "@ + recall_label(m@),
    ];
    assert(texts(out@) =~= first);
    if let Some(v) = &h.via {
        say(&mut out, after("  matched via superseded ", v.as_str()));
    }
    let ghost second = first + (match h@.via {
        Some(v) => seq!["  matched via superseded "@ + v],
        None => Seq::empty(),
    });
    assert(texts(out@) =~= second);
    assert(texts(h.conflicts@).len() == h.conflicts@.len());
    if h.conflicts.len() > 0 {
        say(&mut out, after("  possible-conflict-with: ", join(&h.conflicts, ", ").as_str()));
    }
    let ghost third = second + (if h@.conflicts.len() > 0 {
        seq!["  possible-conflict-with: "@ + joined(h@.conflicts, ", "@)]
    } else {
        Seq::empty()
    });
    assert(texts(out@) =~= third);
    if full {
        say(&mut out, after(indent(m.content.as_str(), "  ").as_str(), "\n"));
    }
    assert(texts(out@) =~= third + (if full {
        seq![indented(m@.content, "  "@) + "\n"@]
    } else {
        Seq::empty()
    }));
    out
}

impl Store {
    /// Answers a recall as JSON.
    pub fn recall_answer(&self, hits: &Vec<Hit>, model: &str, args: &RecallArgs) -> (r: Json)
        requires
            hits_in(self@.memories, hits@),
        ensures
            r.tree() == recall_json(
                self@.memories,
                hits_view(hits@),
                model@,
                args.query@,
                args.rank@ == "v1"@,
                args.full,
            ),
    {
        let v1 = same(args.rank.as_str(), "v1");
        let ghost hs = hits_view(hits@);
        assert(hs.len() == hits@.len());
        let mut o = JsonObject::new();
        o.insert_str("model", model);
        o.insert_str("query", args.query.as_str());
        if hits.len() == 0 {
            let none: Vec<Json> = Vec::new();
            assert(trees(none@) =~= Seq::<JsonV>::empty());
            o.insert("results", Json::Array(none));
            let mut e = "no embeddings found for model '".to_string();
            e.append(model);
            e.append("'; run `agent memory reindex` first");
            o.insert_str("error", e.as_str());
            return o.done();
        }
        let mut items: Vec<Json> = Vec::new();
        let mut i: usize = 0;
        while i < hits.len()
            invariant
                i <= hits@.len(),
                hits_in(self@.memories, hits@),
                hs == hits_view(hits@),
                items@.len() == i,
                forall|k: int|
                    0 <= k < i ==> (#[trigger] items@[k]).tree() == hit_json(
                        self@.memories[hs[k].at],
                        hs[k],
                        v1,
                        args.full,
                    ),
            decreases hits@.len() - i,
        {
            let h = &hits[i];
            assert(hs[i as int] == h@);
            let m = &self.memories[h.at];
            assert(self@.memories[h.at as int] == m@);
            items.push(hit_to_json(m, h, v1, args.full));
            i = i + 1;
        }
        assert(trees(items@) =~= hs.map_values(
            |h: HitV| hit_json(self@.memories[h.at], h, v1, args.full),
        ));
        o.insert("results", Json::Array(items));
        o.done()
    }

    /// Shows the hits of a recall.
    pub fn print_recall(&self, hits: &Vec<Hit>, model: &str, args: &RecallArgs) -> (r: Vec<String>)
        requires
            hits_in(self@.memories, hits@),
        ensures
            texts(r@) == seq!["## Semantic recall (model: "@ + model@ + ")\n"@] + hits_lines(
                self@.memories,
                hits_view(hits@),
                args.rank@ == "v1"@,
                args.full,
            ),
    {
        let v1 = same(args.rank.as_str(), "v1");
        let ghost hs = hits_view(hits@);
        let mut head = "## Semantic recall (model: ".to_string();
        head.append(model);
        head.append(")\n");
        let ghost first = head@;
        let mut out: Vec<String> = Vec::new();
        out.push(head);
        let mut i: usize = 0;
        assert(texts(out@) =~= seq![first] + hits_lines(
            self@.memories,
            hs.take(0),
            v1,
            args.full,
        ));
        while i < hits.len()
            invariant
                i <= hits@.len(),
                hits_in(self@.memories, hits@),
                hs == hits_view(hits@),
                texts(out@) == seq![first] + hits_lines(
                    self@.memories,
                    hs.take(i as int),
                    v1,
                    args.full,
                ),
            decreases hits@.len() - i,
        {
            let h = &hits[i];
            assert(hs.take(i as int + 1).drop_last() =~= hs.take(i as int));
            assert(hs.take(i as int + 1).last() == h@);
            let m = &self.memories[h.at];
            assert(self@.memories[h.at as int] == m@);
            let block = hit_to_lines(m, h, v1, args.full);
            let ghost b = texts(block@);
            let ghost before = hits_lines(self@.memories, hs.take(i as int), v1, args.full);
            say_all(&mut out, block);
            assert(seq![first] + before + b =~= seq![first] + (before + b));
            i = i + 1;
        }
        assert(hs.take(i as int) =~= hs);
        out
    }

    /// The hits of a recall as its log keeps them.
    pub fn recall_log(&self, hits: &Vec<Hit>) -> (r: String)
        requires
            hits_in(self@.memories, hits@),
        ensures
            r@ == json_text(
                JsonV::Array(
                    hits_view(hits@).map_values(
                        |h: HitV| logged_hit(self@.memories[h.at], h),
                    ),
                ),
            ),
    {
        let ghost hs = hits_view(hits@);
        let mut items: Vec<Json> = Vec::new();
        let mut i: usize = 0;
        while i < hits.len()
            invariant
                i <= hits@.len(),
                hits_in(self@.memories, hits@),
                hs == hits_view(hits@),
                items@.len() == i,
                forall|k: int|
                    0 <= k < i ==> (#[trigger] items@[k]).tree() == logged_hit(
                        self@.memories[hs[k].at],
                        hs[k],
                    ),
            decreases hits@.len() - i,
        {
            let h = &hits[i];
            assert(hs[i as int] == h@);
            let m = &self.memories[h.at];
            assert(self@.memories[h.at as int] == m@);
            let mut o = JsonObject::new();
            o.insert_str("id", m.id.as_str());
            o.insert_str("name", m.name.as_str());
            o.insert("score", h.score.copy());
            o.insert("cosine", h.cosine.copy());
            items.push(o.done());
            i = i + 1;
        }
        assert(trees(items@) =~= hs.map_values(|h: HitV| logged_hit(self@.memories[h.at], h)));
        Json::Array(items).text()
    }
}

/// A hit as the log keeps it.
pub open spec fn logged_hit(m: MemoryV, h: HitV) -> JsonV {
    JsonV::Object(
        Map::empty().insert("id"@, JsonV::Str(m.id)).insert("name"@, JsonV::Str(m.name)).insert(
            "score"@,
            h.score,
        ).insert("cosine"@, h.cosine),
    )
}

/// What a recall answers as JSON where there is no embedder.
pub fn no_embedder_answer(query: &str) -> (r: Json)
    ensures
        r.tree() == JsonV::Object(
            Map::empty().insert("model"@, JsonV::Str("lexical-fallback"@)).insert(
                "query"@,
                JsonV::Str(query@),
            ).insert("results"@, JsonV::Array(Seq::empty())).insert(
                "error"@,
                JsonV::Str(
                    "all embedders unavailable; rerun without --json for FTS lexical results"@,
                ),
            ),
        ),
{
    let none: Vec<Json> = Vec::new();
    assert(trees(none@) =~= Seq::<JsonV>::empty());
    let mut o = JsonObject::new();
    o.insert_str("model", "lexical-fallback");
    o.insert_str("query", query);
    o.insert("results", Json::Array(none));
    o.insert_str(
        "error",
        "all embedders unavailable; rerun without --json for FTS lexical results",
    );
    o.done()
}

/// One entry of the log of recalls. The best score stands by its place in the
/// order of numbers and as it is shown; `0.000` where there was none.
#[derive(Debug)]
pub struct RecallLogRow {
    pub ts: i64,
    pub query: String,
    pub k: i64,
    pub top_score: Option<Rank>,
    pub top_shown: String,
    pub type_filter: Option<String>,
    pub results_json: String,
    pub compare_used: i64,
    pub fts_hits: Option<i64>,
}

/// What such an entry is.
pub struct RecallLogV {
    pub ts: i64,
    pub query: Seq<char>,
    pub k: i64,
    pub top_score: Option<Rank>,
    pub top_shown: Seq<char>,
    pub type_filter: Option<Seq<char>>,
    pub results_json: Seq<char>,
    pub compare_used: i64,
    pub fts_hits: Option<i64>,
}

impl View for RecallLogRow {
    type V = RecallLogV;

    open spec fn view(&self) -> RecallLogV {
        RecallLogV {
            ts: self.ts,
            query: self.query@,
            k: self.k,
            top_score: self.top_score,
            top_shown: self.top_shown@,
            type_filter: opt_text(self.type_filter),
            results_json: self.results_json@,
            compare_used: self.compare_used,
            fts_hits: self.fts_hits,
        }
    }
}

/// What a log is.
pub open spec fn recall_log_view(v: Seq<RecallLogRow>) -> Seq<RecallLogV> {
    v.map_values(|r: RecallLogRow| r@)
}

/// Which entries of the log are asked for, and in what order.
#[derive(Clone, Copy, Debug, PartialEq, Eq, Structural)]
pub enum LogView {
    /// Those that found little: the worst first, none at all before them.
    Gaps { since: i64, threshold: Rank },
    /// Those that a search by words would have missed: the best first.
    Missed { since: i64, threshold: Rank },
    /// All, the newest first.
    Recent,
}

/// A score that counts as zero where there is none.
pub open spec fn score_or_zero(s: Option<Rank>) -> i64 {
    match s {
        Some(r) => r.key,
        None => 0,
    }
}

/// Whether an entry is asked for.
pub open spec fn wanted_entry(r: RecallLogV, v: LogView) -> bool {
    match v {
        LogView::Gaps { since, threshold } => r.ts >= since && (r.top_score is None
            || r.top_score->0.key < threshold.key),
        LogView::Missed { since, threshold } => r.ts >= since && r.compare_used == 1
            && score_or_zero(r.top_score) >= threshold.key && (r.fts_hits is None || r.fts_hits
            == Some(0i64)),
        LogView::Recent => true,
    }
}

/// By what an entry is ordered.
pub open spec fn entry_key(r: RecallLogV, v: LogView) -> (i64, i64) {
    match v {
        LogView::Gaps { since, threshold } => (
            match r.top_score {
                Some(s) => (-1 - s.key) as i64,
                None => i64::MAX,
            },
            r.ts,
        ),
        LogView::Missed { since, threshold } => (
            match r.top_score {
                Some(s) => s.key,
                None => i64::MIN,
            },
            0,
        ),
        LogView::Recent => (r.ts, 0),
    }
}

/// The positions of the entries that are asked for.
pub open spec fn entry_positions(log: Seq<RecallLogV>, v: LogView) -> Seq<int>
    decreases log.len(),
{
    if log.len() == 0 {
        Seq::empty()
    } else {
        let init = entry_positions(log.drop_last(), v);
        if wanted_entry(log.last(), v) {
            init.push(log.len() - 1)
        } else {
            init
        }
    }
}

/// The keys of the entries at some positions.
pub open spec fn entry_key_list(log: Seq<RecallLogV>, at: Seq<int>, v: LogView) -> Seq<(i64, i64)> {
    at.map_values(|i: int| entry_key(log[i], v))
}

/// The entries that are asked for, in order, at most `limit`.
pub open spec fn log_entries(log: Seq<RecallLogV>, v: LogView, limit: nat) -> Seq<RecallLogV> {
    let at = entry_positions(log, v);
    Seq::new(
        at_most(limit, at.len()),
        |i: int| log[at[ordered(entry_key_list(log, at, v))[i] as int]],
    )
}

/// What the entries at some positions are.
pub open spec fn entries_taken(log: Seq<RecallLogV>, at: Seq<usize>) -> Seq<RecallLogV> {
    at.map_values(|i: usize| log[i as int])
}

/// Whether an entry is asked for.
fn is_wanted(r: &RecallLogRow, v: LogView) -> (b: bool)
    ensures
        b == wanted_entry(r@, v),
{
    match v {
        LogView::Gaps { since, threshold } => r.ts >= since && (match r.top_score {
            Some(s) => s.key < threshold.key,
            None => true,
        }),
        LogView::Missed { since, threshold } => {
            let score: i64 = match r.top_score {
                Some(s) => s.key,
                None => 0,
            };
            let missed = match r.fts_hits {
                Some(n) => n == 0,
                None => true,
            };
            r.ts >= since && r.compare_used == 1 && score >= threshold.key && missed
        },
        LogView::Recent => true,
    }
}

/// By what an entry is ordered.
fn key_of_entry(r: &RecallLogRow, v: LogView) -> (k: (i64, i64))
    ensures
        k == entry_key(r@, v),
{
    match v {
        LogView::Gaps { since, threshold } => (
            match r.top_score {
                Some(s) => -1 - s.key,
                None => i64::MAX,
            },
            r.ts,
        ),
        LogView::Missed { since, threshold } => (
            match r.top_score {
                Some(s) => s.key,
                None => i64::MIN,
            },
            0,
        ),
        LogView::Recent => (r.ts, 0),
    }
}

/// Picks the entries that are asked for.
pub fn select_entries(log: &Vec<RecallLogRow>, v: LogView, limit: usize) -> (r: Vec<usize>)
    ensures
        forall|i: int| 0 <= i < r@.len() ==> (#[trigger] r@[i]) < log@.len(),
        entries_taken(recall_log_view(log@), r@) == log_entries(
            recall_log_view(log@),
            v,
            limit as nat,
        ),
{
    let ghost all = recall_log_view(log@);
    let mut found: Vec<usize> = Vec::new();
    let mut keys: Vec<(i64, i64)> = Vec::new();
    let ghost mut at: Seq<int> = Seq::empty();
    let mut i: usize = 0;
    assert(at =~= entry_positions(all.take(0), v));
    while i < log.len()
        invariant
            all == recall_log_view(log@),
            i <= log@.len(),
            at == entry_positions(all.take(i as int), v),
            found@.len() == at.len(),
            keys@.len() == at.len(),
            forall|k: int| 0 <= k < at.len() ==> found@[k] == #[trigger] at[k],
            forall|k: int| 0 <= k < at.len() ==> 0 <= #[trigger] at[k] < i,
            forall|k: int| 0 <= k < at.len() ==> #[trigger] keys@[k] == entry_key(all[at[k]], v),
        decreases log@.len() - i,
    {
        let r = &log[i];
        assert(all[i as int] == r@);
        assert(all.take(i as int + 1).drop_last() =~= all.take(i as int));
        assert(all.take(i as int + 1).last() == r@);
        if is_wanted(r, v) {
            found.push(i);
            keys.push(key_of_entry(r, v));
            proof {
                at = at.push(i as int);
            }
        }
        i = i + 1;
    }
    assert(all.take(i as int) =~= all);
    assert(keys@ =~= entry_key_list(all, at, v));
    let order = order_desc(&keys);
    let n: usize = if order.len() < limit {
        order.len()
    } else {
        limit
    };
    let mut out: Vec<usize> = Vec::new();
    let mut k: usize = 0;
    while k < n
        invariant
            k <= n <= order@.len(),
            is_order(keys@, order@),
            keys@.len() == found@.len(),
            found@.len() == at.len(),
            forall|x: int| 0 <= x < at.len() ==> found@[x] == #[trigger] at[x],
            forall|x: int| 0 <= x < at.len() ==> 0 <= #[trigger] at[x] < log@.len(),
            out@.len() == k,
            forall|x: int| 0 <= x < k ==> #[trigger] out@[x] == at[order@[x] as int],
            forall|x: int| 0 <= x < k ==> (#[trigger] out@[x]) < log@.len(),
        decreases n - k,
    {
        let p = order[k];
        assert(p < keys@.len());
        assert(found@[p as int] == at[p as int]);
        out.push(found[p]);
        k = k + 1;
    }
    assert(entries_taken(all, out@) =~= log_entries(all, v, limit as nat));
    out
}

/// The type that a recall was narrowed to, as it is shown.
pub open spec fn type_shown(t: Option<Seq<char>>) -> Seq<char> {
    match t {
        Some(x) => " type="@ + x,
        None => Seq::empty(),
    }
}

/// Writes the type that a recall was narrowed to.
fn write_type(t: &Option<String>) -> (r: String)
    ensures
        r@ == type_shown(opt_text(*t)),
{
    match t {
        Some(x) => after(" type=", x.as_str()),
        None => String::new(),
    }
}

/// The line of a recall that found little.
pub open spec fn gap_line(r: RecallLogV) -> Seq<char> {
    "  ["@ + r.top_shown + "]  k="@ + int_text(r.k as int) + type_shown(r.type_filter) + "  "@ + day(
        r.ts,
    ) + "  ("@ + r.query + ")"@
}

/// The lines of a recall that a search by words would have missed.
pub open spec fn missed_lines(r: RecallLogV) -> Seq<Seq<char>> {
    let items = array_items(r.results_json);
    seq!["  ["@ + r.top_shown + "]  "@ + day(r.ts) + "  ("@ + r.query + ")"@] + (if items.len()
        > 0 {
        seq![
            "           recall top: ["@ + (match str_field(items[0], "id"@) {
                Some(s) => s,
                None => "?"@,
            }) + "] "@ + (match str_field(items[0], "name"@) {
                Some(s) => s,
                None => "?"@,
            }),
        ]
    } else {
        Seq::empty()
    })
}

/// The line of a past recall.
pub open spec fn recent_line(r: RecallLogV) -> Seq<char> {
    "  "@ + (if r.top_score is Some {
        "["@ + r.top_shown + "]"@
    } else {
        "[ -- ]"@
    }) + "  k="@ + int_text(r.k as int) + type_shown(r.type_filter) + (if r.compare_used == 1 {
        " cmp fts="@ + (match r.fts_hits {
            Some(n) => int_text(n as int),
            None => "?"@,
        })
    } else {
        Seq::empty()
    }) + "  "@ + day(r.ts) + "  "@ + r.query
}

/// The lines of one entry in a view of the log.
pub open spec fn entry_lines(r: RecallLogV, v: LogView) -> Seq<Seq<char>> {
    match v {
        LogView::Gaps { since, threshold } => seq![gap_line(r)],
        LogView::Missed { since, threshold } => missed_lines(r),
        LogView::Recent => seq![recent_line(r)],
    }
}

/// The lines of some entries.
pub open spec fn entries_lines(log: Seq<RecallLogV>, v: LogView) -> Seq<Seq<char>>
    decreases log.len(),
{
    if log.len() == 0 {
        Seq::empty()
    } else {
        entries_lines(log.drop_last(), v) + entry_lines(log.last(), v)
    }
}

/// What is said where a view of the log is empty.
pub open spec fn empty_note(v: LogView) -> Seq<char> {
    match v {
        LogView::Gaps {
            since,
            threshold,
        } => "  (none — recall is hitting strong matches across the board)"@,
        LogView::Missed {
            since,
            threshold,
        } => "  (none — either FTS is keeping up, or no recent --compare calls)"@,
        LogView::Recent => "  (no recall calls logged yet — run `agent memory recall <query>` to seed)"@,
    }
}

/// A view of the log, under its title.
pub open spec fn log_shown(
    title: Seq<char>,
    log: Seq<RecallLogV>,
    v: LogView,
    limit: nat,
) -> Seq<Seq<char>> {
    let es = log_entries(log, v, limit);
    seq![title] + entries_lines(es, v) + (if es.len() == 0 {
        seq![empty_note(v)]
    } else {
        Seq::empty()
    }) + (if v == LogView::Recent {
        Seq::empty()
    } else {
        seq![""@]
    })
}

/// Writes the lines of one entry.
fn write_entry(r: &RecallLogRow, v: LogView) -> (o: Vec<String>)
    ensures
        texts(o@) == entry_lines(r@, v),
{
    let mut out: Vec<String> = Vec::new();
    match v {
        LogView::Gaps { since, threshold } => {
            let mut l = "  [".to_string();
            l.append(r.top_shown.as_str());
            l.append("]  k=");
            l.append(i64_text(r.k).as_str());
            l.append(write_type(&r.type_filter).as_str());
            l.append("  ");
            l.append(fmt_ts(r.ts).as_str());
            l.append("  (");
            l.append(r.query.as_str());
            l.append(")");
            out.push(l);
            assert(texts(out@) =~= entry_lines(r@, v));
        },
        LogView::Missed { since, threshold } => {
            let mut l = "  [".to_string();
            l.append(r.top_shown.as_str());
            l.append("]  ");
            l.append(fmt_ts(r.ts).as_str());
            l.append("  (");
            l.append(r.query.as_str());
            l.append(")");
            let ghost first = l@;
            out.push(l);
            assert(texts(out@) =~= seq![first]);
            let ghost items = array_items(r@.results_json);
            if let Some(Json::Array(es)) = Json::parse(r.results_json.as_str()) {
                assert(items == trees(es@));
                if es.len() > 0 {
                    assert(items[0] == es@[0].tree());
                    let mut t = "           recall top: [".to_string();
                    t.append(
                        match es[0].str_at("id") {
                            Some(s) => s,
                            None => "?",
                        },
                    );
                    t.append("] ");
                    t.append(
                        match es[0].str_at("name") {
                            Some(s) => s,
                            None => "?",
                        },
                    );
                    say(&mut out, t);
                }
            }
            assert(texts(out@) =~= entry_lines(r@, v));
        },
        LogView::Recent => {
            let mut score = "[ -- ]".to_string();
            if r.top_score.is_some() {
                score = "[".to_string();
                score.append(r.top_shown.as_str());
                score.append("]");
            }
            let mut against = String::new();
            if r.compare_used == 1 {
                against = " cmp fts=".to_string();
                match r.fts_hits {
                    Some(n) => against.append(i64_text(n).as_str()),
                    None => against.append("?"),
                }
            }
            assert(against@ =~= (if r.compare_used == 1 {
                " cmp fts="@ + (match r.fts_hits {
                    Some(n) => int_text(n as int),
                    None => "?"@,
                })
            } else {
                Seq::empty()
            }));
            let mut l = "  ".to_string();
            l.append(score.as_str());
            l.append("  k=");
            l.append(i64_text(r.k).as_str());
            l.append(write_type(&r.type_filter).as_str());
            l.append(against.as_str());
            l.append("  ");
            l.append(fmt_ts(r.ts).as_str());
            l.append("  ");
            l.append(r.query.as_str());
            out.push(l);
            assert(texts(out@) =~= entry_lines(r@, v));
        },
    }
    out
}

/// What is said where a view of the log is empty.
fn write_empty_note(v: LogView) -> (r: String)
    ensures
        r@ == empty_note(v),
{
    match v {
        LogView::Gaps {
            since,
            threshold,
        } => "  (none — recall is hitting strong matches across the board)".to_string(),
        LogView::Missed {
            since,
            threshold,
        } => "  (none — either FTS is keeping up, or no recent --compare calls)".to_string(),
        LogView::Recent => "  (no recall calls logged yet — run `agent memory recall <query>` to seed)".to_string(),
    }
}

/// Shows a view of the log of recalls.
pub fn print_recall_log(title: &str, log: &Vec<RecallLogRow>, v: LogView, limit: usize) -> (r: Vec<
    String,
>)
    ensures
        texts(r@) == log_shown(title@, recall_log_view(log@), v, limit as nat),
{
    let at = select_entries(log, v, limit);
    let ghost es = entries_taken(recall_log_view(log@), at@);
    assert(es.len() == at@.len());
    let mut out: Vec<String> = Vec::new();
    out.push(title.to_owned());
    let mut i: usize = 0;
    assert(texts(out@) =~= seq![title@] + entries_lines(es.take(0), v));
    while i < at.len()
        invariant
            i <= at@.len(),
            es == entries_taken(recall_log_view(log@), at@),
            forall|x: int| 0 <= x < at@.len() ==> (#[trigger] at@[x]) < log@.len(),
            texts(out@) == seq![title@] + entries_lines(es.take(i as int), v),
        decreases at@.len() - i,
    {
        let r = &log[at[i]];
        assert(es.take(i as int + 1).drop_last() =~= es.take(i as int));
        assert(es.take(i as int + 1).last() == r@);
        let block = write_entry(r, v);
        let ghost b = texts(block@);
        let ghost before = entries_lines(es.take(i as int), v);
        say_all(&mut out, block);
        assert(seq![title@] + before + b =~= seq![title@] + (before + b));
        i = i + 1;
    }
    assert(es.take(i as int) =~= es);
    let ghost first = texts(out@);
    if at.len() == 0 {
        say(&mut out, write_empty_note(v));
    }
    let ghost second = first + (if es.len() == 0 {
        seq![empty_note(v)]
    } else {
        Seq::empty()
    });
    assert(texts(out@) =~= second);
    if v != LogView::Recent {
        say(&mut out, "".to_string());
    }
    assert(texts(out@) =~= second + (if v == LogView::Recent {
        Seq::empty()
    } else {
        seq![""@]
    }));
    out
}

/// The topic of a question: its first term, or an underscore.
pub open spec fn topic_of(query: Seq<char>) -> Seq<char> {
    let ts = tokens(query);
    if ts.len() > 0 {
        ts[0]
    } else {
        "_"@
    }
}

/// The topic of a question.
pub fn query_topic(query: &str) -> (r: String)
    ensures
        r@ == topic_of(query@),
{
    let ts = tokenize(query);
    assert(texts(ts@).len() == ts@.len());
    if ts.len() > 0 {
        assert(texts(ts@)[0] == ts@[0]@);
        ts[0].clone()
    } else {
        "_".to_string()
    }
}

/// The questions about one topic: where they stand in the log.
#[derive(Debug)]
pub struct Hotspot {
    pub topic: String,
    pub at: Vec<usize>,
}

/// The positions of the questions about a topic since some time.
pub open spec fn asked_about(log: Seq<RecallLogV>, since: i64, topic: Seq<char>) -> Seq<int>
    decreases log.len(),
{
    if log.len() == 0 {
        Seq::empty()
    } else {
        let init = asked_about(log.drop_last(), since, topic);
        if log.last().ts >= since && topic_of(log.last().query) == topic {
            init.push(log.len() - 1)
        } else {
            init
        }
    }
}

/// The topics asked about since some time, in the order they came up.
pub open spec fn topics_asked(log: Seq<RecallLogV>, since: i64) -> Seq<Seq<char>>
    decreases log.len(),
{
    if log.len() == 0 {
        Seq::empty()
    } else {
        let init = topics_asked(log.drop_last(), since);
        let t = topic_of(log.last().query);
        if log.last().ts >= since && !listed(init, t) {
            init.push(t)
        } else {
            init
        }
    }
}

/// Groups the questions since some time by topic.
pub fn hotspots(log: &Vec<RecallLogRow>, since: i64) -> (r: Vec<Hotspot>)
    ensures
        r@.map_values(|h: Hotspot| h.topic@) == topics_asked(recall_log_view(log@), since),
        forall|i: int|
            0 <= i < r@.len() ==> crate::context::places((#[trigger] r@[i]).at@) == asked_about(
                recall_log_view(log@),
                since,
                r@[i].topic@,
            ),
        forall|i: int, k: int|
            0 <= i < r@.len() && 0 <= k < r@[i].at@.len() ==> (#[trigger] r@[i].at@[k])
                < log@.len(),
{
    let ghost all = recall_log_view(log@);
    let mut names: Vec<String> = Vec::new();
    let mut i: usize = 0;
    assert(texts(names@) =~= topics_asked(all.take(0), since));
    while i < log.len()
        invariant
            all == recall_log_view(log@),
            i <= log@.len(),
            texts(names@) == topics_asked(all.take(i as int), since),
        decreases log@.len() - i,
    {
        assert(all.take(i as int + 1).drop_last() =~= all.take(i as int));
        assert(all.take(i as int + 1).last() == log@[i as int]@);
        if log[i].ts >= since {
            let t = query_topic(log[i].query.as_str());
            if !is_listed(&names, t.as_str()) {
                proof {
                    lemma_texts_push(names@, t);
                }
                names.push(t);
            }
        }
        i = i + 1;
    }
    assert(all.take(i as int) =~= all);
    let mut out: Vec<Hotspot> = Vec::new();
    let mut k: usize = 0;
    while k < names.len()
        invariant
            all == recall_log_view(log@),
            k <= names@.len(),
            out@.len() == k,
            forall|x: int| 0 <= x < k ==> (#[trigger] out@[x]).topic@ == names@[x]@,
            forall|x: int|
                0 <= x < k ==> crate::context::places((#[trigger] out@[x]).at@) == asked_about(
                    all,
                    since,
                    out@[x].topic@,
                ),
            forall|x: int, y: int|
                0 <= x < k && 0 <= y < out@[x].at@.len() ==> (#[trigger] out@[x].at@[y])
                    < log@.len(),
        decreases names@.len() - k,
    {
        let at = positions_about(log, since, names[k].as_str());
        out.push(Hotspot { topic: names[k].clone(), at });
        k = k + 1;
    }
    assert(out@.map_values(|h: Hotspot| h.topic@) =~= texts(names@));
    out
}

/// The positions of the questions about a topic.
fn positions_about(log: &Vec<RecallLogRow>, since: i64, topic: &str) -> (r: Vec<usize>)
    ensures
        crate::context::places(r@) == asked_about(recall_log_view(log@), since, topic@),
        forall|k: int| 0 <= k < r@.len() ==> (#[trigger] r@[k]) < log@.len(),
{
    let ghost all = recall_log_view(log@);
    let mut out: Vec<usize> = Vec::new();
    let mut i: usize = 0;
    assert(crate::context::places(out@) =~= asked_about(all.take(0), since, topic@));
    while i < log.len()
        invariant
            all == recall_log_view(log@),
            i <= log@.len(),
            crate::context::places(out@) == asked_about(all.take(i as int), since, topic@),
            forall|k: int| 0 <= k < out@.len() ==> (#[trigger] out@[k]) < log@.len(),
        decreases log@.len() - i,
    {
        assert(all.take(i as int + 1).drop_last() =~= all.take(i as int));
        assert(all.take(i as int + 1).last() == log@[i as int]@);
        if log[i].ts >= since && same(query_topic(log[i].query.as_str()).as_str(), topic) {
            let ghost before = out@;
            out.push(i);
            assert(crate::context::places(out@) =~= crate::context::places(before).push(i as int));
        }
        i = i + 1;
    }
    assert(all.take(i as int) =~= all);
    out
}

/// The lines of a topic: how well it was answered, how often it was asked, and
/// up to three of the questions.
pub open spec fn hotspot_lines(
    topic: Seq<char>,
    shown: Seq<char>,
    n: nat,
    samples: Seq<Seq<char>>,
) -> Seq<Seq<char>> {
    seq!["  ["@ + shown + "]  n="@ + padded_left(decimal(n), 3) + "  "@ + topic]
        + samples.map_values(|q: Seq<char>| "           e.g. "@ + q)
}

/// Writes the lines of a topic.
pub fn write_hotspot(h: &Hotspot, shown: &str, log: &Vec<RecallLogRow>) -> (r: Vec<String>)
    requires
        forall|i: int| 0 <= i < h.at@.len() ==> (#[trigger] h.at@[i]) < log@.len(),
    ensures
        texts(r@) == hotspot_lines(
            h.topic@,
            shown@,
            h.at@.len(),
            Seq::new(at_most(3, h.at@.len()), |i: int| log@[h.at@[i] as int].query@),
        ),
{
    let mut l = "  [".to_string();
    l.append(shown);
    l.append("]  n=");
    l.append(pad_left(usize_text(h.at.len()).as_str(), 3).as_str());
    l.append("  ");
    l.append(h.topic.as_str());
    let ghost first = l@;
    let mut out: Vec<String> = Vec::new();
    out.push(l);
    let n: usize = if h.at.len() < 3 {
        h.at.len()
    } else {
        3
    };
    let ghost samples = Seq::new(
        at_most(3, h.at@.len()),
        |i: int| log@[h.at@[i] as int].query@,
    );
    let mut i: usize = 0;
    while i < n
        invariant
            i <= n <= h.at@.len(),
            n == samples.len(),
            samples == Seq::new(
                at_most(3, h.at@.len()),
                |i: int| log@[h.at@[i] as int].query@,
            ),
            forall|x: int| 0 <= x < h.at@.len() ==> (#[trigger] h.at@[x]) < log@.len(),
            out@.len() == i + 1,
            out@[0]@ == first,
            forall|k: int|
                1 <= k < i + 1 ==> (#[trigger] out@[k])@ == "           e.g. "@ + samples[k - 1],
        decreases n - i,
    {
        assert(h.at@[i as int] < log@.len());
        out.push(after("           e.g. ", log[h.at[i]].query.as_str()));
        i = i + 1;
    }
    assert(texts(out@) =~= seq![first] + samples.map_values(
        |q: Seq<char>| "           e.g. "@ + q,
    ));
    out
}

/// The arguments of embedding anew.
#[derive(Debug)]
pub struct ReindexArgs {
    /// Only memories without a vector.
    pub missing: bool,
    pub batch: usize,
}

/// The positions among the first `n` memories that are embedded: the active
/// ones, only those without a vector where that is asked for.
pub open spec fn to_embed(ms: Seq<MemoryV>, missing: bool, embedded: Seq<Seq<char>>, n: nat) -> Seq<
    int,
>
    decreases n,
{
    if n == 0 {
        Seq::empty()
    } else {
        let init = to_embed(ms, missing, embedded, (n - 1) as nat);
        if ms[n - 1].is_active && !(missing && listed(embedded, ms[n - 1].id)) {
            init.push(n - 1)
        } else {
            init
        }
    }
}

impl Store {
    /// The memories to embed.
    pub fn reindex_rows(&self, args: &ReindexArgs, embedded: &Vec<String>) -> (r: Vec<usize>)
        ensures
            crate::context::places(r@) == to_embed(
                self@.memories,
                args.missing,
                texts(embedded@),
                self@.memories.len(),
            ),
    {
        let ghost ms = self@.memories;
        let mut out: Vec<usize> = Vec::new();
        let mut i: usize = 0;
        assert(crate::context::places(out@) =~= Seq::<int>::empty());
        while i < self.memories.len()
            invariant
                ms == self@.memories,
                i <= self.memories@.len(),
                crate::context::places(out@) == to_embed(
                    ms,
                    args.missing,
                    texts(embedded@),
                    i as nat,
                ),
            decreases self.memories@.len() - i,
        {
            let m = &self.memories[i];
            assert(ms[i as int] == m@);
            if m.is_active && !(args.missing && is_listed(embedded, m.id.as_str())) {
                let ghost before = out@;
                out.push(i);
                assert(crate::context::places(out@) =~= crate::context::places(before).push(
                    i as int,
                ));
            }
            i = i + 1;
        }
        out
    }
}

/// The end of the batch that starts at `from`.
pub fn batch_end(from: usize, total: usize, batch: usize) -> (r: usize)
    requires
        from < total,
    ensures
        from < r <= total,
        r == (if batch == 0 {
            from + 1
        } else if total - from < batch {
            total as int
        } else {
            from + batch
        }),
{
    let size: usize = if batch == 0 {
        1
    } else {
        batch
    };
    if total - from < size {
        total
    } else {
        from + size
    }
}

/// The line at the start of embedding anew.
pub fn reindex_first_line(total: usize, model: &str, batch: usize) -> (r: String)
    ensures
        r@ == (if total == 0 {
            "nothing to embed (model="@ + model@ + ")"@
        } else {
            "embedding "@ + decimal(total as nat) + " memories with "@ + model@ + " (batch="@
                + decimal(batch as nat) + ")..."@
        }),
{
    if total == 0 {
        let mut l = "nothing to embed (model=".to_string();
        l.append(model);
        l.append(")");
        return l;
    }
    let mut l = "embedding ".to_string();
    l.append(usize_text(total).as_str());
    l.append(" memories with ");
    l.append(model);
    l.append(" (batch=");
    l.append(usize_text(batch).as_str());
    l.append(")...");
    l
}

/// The line at the end of embedding anew.
pub fn reindex_last_line(done: usize, failed: usize) -> (r: String)
    ensures
        r@ == "reindex complete: "@ + decimal(done as nat) + " embedded, "@ + decimal(failed as nat)
            + " failed"@,
{
    let mut l = "reindex complete: ".to_string();
    l.append(usize_text(done).as_str());
    l.append(" embedded, ");
    l.append(usize_text(failed).as_str());
    l.append(" failed");
    l
}

/// The start of a span of days before now.
pub fn days_before(now: i64, days: i64) -> (r: i64)
    requires
        i64::MIN <= days * 86400 <= i64::MAX,
        i64::MIN <= now - days * 86400 <= i64::MAX,
    ensures
        r == now - days * 86400,
{
    now - days * 86400
}

} // verus!
