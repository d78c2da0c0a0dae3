//! How memories are shown: labels, listings, searches, and one memory in full.
use crate::dates::{fmt_ts, shown_or_empty};
use crate::json::{trees, Json, JsonObject, JsonV};
use crate::query::{selected, taken, Query, QueryV};
use crate::resolve::{reached, resolved};
use crate::rows::{memories, memory_json, memory_to_json, Memory, MemoryV};
use crate::sql::{ScopeFilter, ScopeV};
use crate::store::{Store, StoreV};
use crate::text::{
    decimal, join, joined, lemma_texts_push, lines, opt_text, same, split_lines, texts, usize_text,
};
use vstd::prelude::*;

verus! {

/// What is printed, and an error behind it.
#[derive(Debug)]
pub struct Output {
    pub lines: Vec<String>,
    pub error: Option<String>,
}

/// What an output is.
pub struct OutputV {
    pub lines: Seq<Seq<char>>,
    pub error: Option<Seq<char>>,
}

impl View for Output {
    type V = OutputV;

    open spec fn view(&self) -> OutputV {
        OutputV { lines: texts(self.lines@), error: opt_text(self.error) }
    }
}

/// Appends a line.
pub fn say(out: &mut Vec<String>, line: String)
    ensures
        texts(final(out)@) == texts(old(out)@).push(line@),
{
    proof {
        lemma_texts_push(out@, line);
    }
    out.push(line);
}

/// Appends lines.
pub fn say_all(out: &mut Vec<String>, more: Vec<String>)
    ensures
        texts(final(out)@) == texts(old(out)@) + texts(more@),
{
    let ghost a = out@;
    let ghost b = more@;
    let mut more = more;
    out.append(&mut more);
    assert(texts(out@) =~= texts(a) + texts(b));
}

/// A day.
pub open spec fn day(ts: i64) -> Seq<char> {
    shown_or_empty(ts, "%Y-%m-%d"@)
}

/// When a memory was checked, as a part of its label.
pub open spec fn verified_part(verified_at: Option<i64>) -> Seq<char> {
    match verified_at {
        Some(ts) => "verified "@ + day(ts),
        None => "never verified"@,
    }
}

/// Who recorded a memory, as a part of its label.
pub open spec fn author_part(author: Seq<char>) -> Seq<Seq<char>> {
    if author.len() > 0 {
        seq!["by "@ + author]
    } else {
        Seq::empty()
    }
}

/// What became of a memory, as a part of its label.
pub open spec fn standing_part(lifecycle: Seq<char>, superseded_by: Option<Seq<char>>) -> Seq<
    Seq<char>,
> {
    if lifecycle == "superseded"@ {
        match superseded_by {
            Some(s) => seq!["SUPERSEDED by "@ + s],
            None => seq!["SUPERSEDED"@],
        }
    } else if lifecycle == "orphaned"@ {
        seq!["ORPHANED — source no longer resolvable"@]
    } else {
        Seq::empty()
    }
}

/// The label by which a memory is testimony: when it was recorded, whether it
/// was checked, by whom, and what became of it.
pub open spec fn label(
    created_at: i64,
    verified_at: Option<i64>,
    lifecycle: Seq<char>,
    superseded_by: Option<Seq<char>>,
    author: Seq<char>,
) -> Seq<char> {
    joined(
        seq!["recorded "@ + day(created_at), verified_part(verified_at)] + author_part(author)
            + standing_part(lifecycle, superseded_by),
        " · "@,
    )
}

/// The label of a stored memory.
pub open spec fn label_of(m: MemoryV) -> Seq<char> {
    label(m.created_at, m.verified_at, m.lifecycle, m.superseded_by, m.author)
}

/// The label of a memory that is read for a session: it has no successor.
pub open spec fn session_label(m: MemoryV) -> Seq<char> {
    label(m.created_at, m.verified_at, m.lifecycle, None, m.author)
}

/// Writes the label of a memory.
pub fn trust_label(
    created_at: i64,
    verified_at: Option<i64>,
    lifecycle: &str,
    superseded_by: &Option<String>,
    author: &str,
) -> (r: String)
    ensures
        r@ == label(created_at, verified_at, lifecycle@, opt_text(*superseded_by), author@),
{
    let mut parts: Vec<String> = Vec::new();
    let mut p = "recorded ".to_string();
    p.append(fmt_ts(created_at).as_str());
    parts.push(p);
    let checked = match verified_at {
        Some(ts) => {
            let mut v = "verified ".to_string();
            v.append(fmt_ts(ts).as_str());
            v
        },
        None => "never verified".to_string(),
    };
    parts.push(checked);
    let ghost first = seq!["recorded "@ + day(created_at), verified_part(verified_at)];
    assert(texts(parts@) =~= first);
    if !author.is_empty() {
        let mut a = "by ".to_string();
        a.append(author);
        say(&mut parts, a);
    }
    assert(texts(parts@) =~= first + author_part(author@));
    let ghost second = texts(parts@);
    if same(lifecycle, "superseded") {
        match superseded_by {
            Some(s) => {
                let mut t = "SUPERSEDED by ".to_string();
                t.append(s.as_str());
                say(&mut parts, t);
            },
            None => {
                say(&mut parts, "SUPERSEDED".to_string());
            },
        }
    } else if same(lifecycle, "orphaned") {
        say(&mut parts, "ORPHANED — source no longer resolvable".to_string());
    }
    assert(texts(parts@) =~= second + standing_part(lifecycle@, opt_text(*superseded_by)));
    join(&parts, " · ")
}

/// The label of a stored memory.
pub fn memory_label(m: &Memory) -> (r: String)
    ensures
        r@ == label_of(m@),
{
    trust_label(
        m.created_at,
        m.verified_at,
        m.lifecycle.as_str(),
        &m.superseded_by,
        m.author.as_str(),
    )
}

/// The label of a memory that is read for a session.
pub fn memory_trust_label(m: &Memory) -> (r: String)
    ensures
        r@ == session_label(m@),
{
    let none: Option<String> = None;
    trust_label(m.created_at, m.verified_at, m.lifecycle.as_str(), &none, m.author.as_str())
}

/// The lines of a text, each behind a prefix.
pub open spec fn indented(s: Seq<char>, prefix: Seq<char>) -> Seq<char> {
    joined(lines(s).map_values(|l: Seq<char>| prefix + l), "\n"@)
}

/// Indents a text.
pub fn indent(s: &str, prefix: &str) -> (r: String)
    ensures
        r@ == indented(s@, prefix@),
{
    let ls = split_lines(s);
    let mut out: Vec<String> = Vec::new();
    let mut i: usize = 0;
    while i < ls.len()
        invariant
            i <= ls@.len(),
            out@.len() == i,
            forall|k: int| 0 <= k < i ==> (#[trigger] out@[k])@ == prefix@ + ls@[k]@,
        decreases ls@.len() - i,
    {
        let mut l = prefix.to_owned();
        l.append(ls[i].as_str());
        out.push(l);
        i = i + 1;
    }
    assert(texts(out@) =~= lines(s@).map_values(|l: Seq<char>| prefix@ + l));
    join(&out, "\n")
}

/// The heading of a memory, with what stands in its last brackets.
pub open spec fn heading(m: MemoryV, last: Seq<char>) -> Seq<char> {
    "["@ + m.id + "] ("@ + m.type_ + ") "@ + m.name + " — "@ + m.description + "  ["@ + last + "]"@
}

/// Writes the heading of a memory.
pub fn write_heading(m: &Memory, last: &str) -> (r: String)
    ensures
        r@ == heading(m@, last@),
{
    let mut l = "[".to_string();
    l.append(m.id.as_str());
    l.append("] (");
    l.append(m.type_.as_str());
    l.append(") ");
    l.append(m.name.as_str());
    l.append(" — ");
    l.append(m.description.as_str());
    l.append("  [");
    l.append(last);
    l.append("]");
    l
}

/// A text behind another.
pub fn after(a: &str, b: &str) -> (r: String)
    ensures
        r@ == a@ + b@,
{
    let mut s = a.to_owned();
    s.append(b);
    s
}

/// A line for a text that is not empty.
pub open spec fn nonempty_line(lead: Seq<char>, s: Seq<char>) -> Seq<Seq<char>> {
    if s.len() > 0 {
        seq![lead + s]
    } else {
        Seq::empty()
    }
}

/// Appends a line for a text that is not empty.
pub fn say_nonempty(out: &mut Vec<String>, lead: &str, s: &str)
    ensures
        texts(final(out)@) == texts(old(out)@) + nonempty_line(lead@, s@),
{
    let ghost before = texts(out@);
    if !s.is_empty() {
        say(out, after(lead, s));
        assert(texts(out@) =~= before + seq![lead@ + s@]);
    } else {
        assert(texts(out@) =~= before + Seq::<Seq<char>>::empty());
    }
}

/// A memory in full.
pub open spec fn memory_lines(m: MemoryV) -> Seq<Seq<char>> {
    seq![heading(m, day(m.updated_at)), "  source: "@ + m.source] + nonempty_line("  tags: "@, m.tags)
        + nonempty_line("  cwd: "@, m.cwd) + seq![
        "  active: "@ + (if m.is_active {
            "true"@
        } else {
            "false"@
        }),
        "  lifecycle: "@ + m.lifecycle,
        "  created: "@ + day(m.created_at),
        "  updated: "@ + day(m.updated_at),
        ""@,
        m.content,
    ]
}

/// Shows a memory in full.
pub fn print_memory(m: &Memory) -> (r: Vec<String>)
    ensures
        texts(r@) == memory_lines(m@),
{
    let mut out: Vec<String> = Vec::new();
    out.push(write_heading(m, fmt_ts(m.updated_at).as_str()));
    out.push(after("  source: ", m.source.as_str()));
    assert(texts(out@) =~= seq![heading(m@, day(m@.updated_at)), "  source: "@ + m@.source]);
    say_nonempty(&mut out, "  tags: ", m.tags.as_str());
    say_nonempty(&mut out, "  cwd: ", m.cwd.as_str());
    let ghost first = texts(out@);
    let mut rest: Vec<String> = Vec::new();
    rest.push(
        after(
            "  active: ",
            if m.is_active {
                "true"
            } else {
                "false"
            },
        ),
    );
    rest.push(after("  lifecycle: ", m.lifecycle.as_str()));
    rest.push(after("  created: ", fmt_ts(m.created_at).as_str()));
    rest.push(after("  updated: ", fmt_ts(m.updated_at).as_str()));
    rest.push("".to_string());
    rest.push(m.content.clone());
    let ghost tail = seq![
        "  active: "@ + (if m@.is_active {
            "true"@
        } else {
            "false"@
        }),
        "  lifecycle: "@ + m@.lifecycle,
        "  created: "@ + day(m@.created_at),
        "  updated: "@ + day(m@.updated_at),
        ""@,
        m@.content,
    ];
    assert(texts(rest@) =~= tail);
    say_all(&mut out, rest);
    out
}

/// How the memory in force is shown above the one it replaced.
pub open spec fn successor_lines(s: StoreV, id: Seq<char>) -> Seq<Seq<char>> {
    match s.get(id) {
        Some(m) => seq![
            heading(m, "CURRENT — supersedes the entry below"@),
            "  "@ + label_of(m),
            indented(m.content, "  "@),
            ""@,
        ],
        None => seq!["  (successor "@ + id + " not found — ORPHANED supersession)"@],
    }
}

/// How a chain of more than one step is shown.
pub open spec fn chain_note(succ: Seq<char>, hops: Seq<Seq<char>>) -> Seq<Seq<char>> {
    if reached(succ, hops) != succ {
        seq![
            "  (resolved through "@ + decimal(hops.len()) + " superseded link(s): "@ + succ
                + " → "@ + joined(hops, " → "@) + ")"@,
        ]
    } else {
        Seq::empty()
    }
}

/// What is shown of the memory in force for a successor: always the end of the
/// chain, never a link of it.
pub open spec fn current_block(s: StoreV, succ: Seq<char>) -> OutputV {
    match resolved(s, succ) {
        Err(e) => OutputV { lines: Seq::empty(), error: Some(e) },
        Ok(hops) => OutputV {
            lines: successor_lines(s, reached(succ, hops)) + chain_note(succ, hops),
            error: None,
        },
    }
}

impl Store {
    /// Shows the memory in force above the one it replaced.
    pub fn print_successor(&self, id: &str) -> (r: Vec<String>)
        ensures
            texts(r@) == successor_lines(self@, id@),
    {
        let mut out: Vec<String> = Vec::new();
        match self.get(id) {
            Some(m) => {
                out.push(write_heading(m, "CURRENT — supersedes the entry below"));
                out.push(after("  ", memory_label(m).as_str()));
                out.push(indent(m.content.as_str(), "  "));
                out.push("".to_string());
                assert(texts(out@) =~= successor_lines(self@, id@));
            },
            None => {
                let mut l = "  (successor ".to_string();
                l.append(id);
                l.append(" not found — ORPHANED supersession)");
                out.push(l);
                assert(texts(out@) =~= successor_lines(self@, id@));
            },
        }
        out
    }

    /// Shows the memory in force for a successor.
    fn print_current(&self, succ: &str) -> (r: Output)
        ensures
            r@ == current_block(self@, succ@),
    {
        match self.resolve_current(succ) {
            Err(e) => {
                let out: Vec<String> = Vec::new();
                assert(texts(out@) =~= Seq::<Seq<char>>::empty());
                Output { lines: out, error: Some(e) }
            },
            Ok(hops) => {
                let ghost hs = texts(hops@);
                assert(hs.len() == hops@.len());
                let head = if hops.len() == 0 {
                    succ.to_owned()
                } else {
                    assert(hs.last() == hops@[hops@.len() - 1]@);
                    hops[hops.len() - 1].clone()
                };
                let mut out = self.print_successor(head.as_str());
                let ghost first = texts(out@);
                if !same(head.as_str(), succ) {
                    let mut l = "  (resolved through ".to_string();
                    l.append(usize_text(hops.len()).as_str());
                    l.append(" superseded link(s): ");
                    l.append(succ);
                    l.append(" → ");
                    l.append(join(&hops, " → ").as_str());
                    l.append(")");
                    say(&mut out, l);
                }
                assert(texts(out@) =~= first + chain_note(succ@, hs));
                Output { lines: out, error: None }
            },
        }
    }
}

/// Whether the chain behind a memory ends in the knowledge index.
pub open spec fn leads_to_index(s: StoreV, m: MemoryV) -> bool {
    match m.superseded_by {
        None => false,
        Some(succ) => match resolved(s, succ) {
            Err(_) => false,
            Ok(hops) => match s.get(reached(succ, hops)) {
                Some(head) => head.type_ == "kx"@,
                None => false,
            },
        },
    }
}

/// One hit of a search. A superseded memory is shown as a stub below the one in
/// force; as it is never shown without that one, and a search never shows the
/// knowledge index, it is left out where that one belongs to the index.
pub open spec fn hit_block(s: StoreV, m: MemoryV) -> OutputV {
    if m.lifecycle == "superseded"@ && leads_to_index(s, m) {
        OutputV { lines: Seq::empty(), error: None }
    } else if m.lifecycle == "superseded"@ {
        let current = match m.superseded_by {
            Some(succ) => current_block(s, succ),
            None => OutputV { lines: Seq::empty(), error: None },
        };
        if current.error is Some {
            current
        } else {
            OutputV {
                lines: current.lines + seq![
                    heading(m, day(m.updated_at)) + "\n  "@ + label_of(m),
                    ""@,
                ],
                error: None,
            }
        }
    } else {
        OutputV {
            lines: seq![heading(m, day(m.updated_at)), "  "@ + label_of(m)] + nonempty_line(
                "  tags: "@,
                m.tags,
            ) + seq![indented(m.content, "  "@), ""@],
            error: None,
        }
    }
}

/// The hits of a search, in order, up to the first error.
pub open spec fn hit_blocks(s: StoreV, ms: Seq<MemoryV>) -> OutputV
    decreases ms.len(),
{
    if ms.len() == 0 {
        OutputV { lines: Seq::empty(), error: None }
    } else {
        let p = hit_blocks(s, ms.drop_last());
        if p.error is Some {
            p
        } else {
            let q = hit_block(s, ms.last());
            OutputV { lines: p.lines + q.lines, error: q.error }
        }
    }
}

/// An error among the first hits is the outcome.
proof fn lemma_hit_error_stays(s: StoreV, ms: Seq<MemoryV>, n: int)
    requires
        0 <= n <= ms.len(),
        hit_blocks(s, ms.take(n)).error is Some,
    ensures
        hit_blocks(s, ms) == hit_blocks(s, ms.take(n)),
    decreases ms.len() - n,
{
    if n < ms.len() {
        assert(ms.take(n + 1).drop_last() =~= ms.take(n));
        lemma_hit_error_stays(s, ms, n + 1);
    } else {
        assert(ms.take(n) =~= ms);
    }
}

impl Store {
    /// Decides [`leads_to_index`].
    fn ends_in_index(&self, m: &Memory) -> (r: bool)
        ensures
            r == leads_to_index(self@, m@),
    {
        let succ = match &m.superseded_by {
            Some(x) => x,
            None => {
                return false;
            },
        };
        let hops = match self.resolve_current(succ.as_str()) {
            Ok(h) => h,
            Err(_) => {
                return false;
            },
        };
        let ghost hs = texts(hops@);
        assert(hs.len() == hops@.len());
        let head = if hops.len() == 0 {
            succ.clone()
        } else {
            assert(hs.last() == hops@[hops@.len() - 1]@);
            hops[hops.len() - 1].clone()
        };
        match self.get(head.as_str()) {
            Some(h) => same(h.type_.as_str(), "kx"),
            None => false,
        }
    }

    /// Shows one hit of a search.
    fn print_hit(&self, m: &Memory) -> (r: Output)
        ensures
            r@ == hit_block(self@, m@),
    {
        if same(m.lifecycle.as_str(), "superseded") && self.ends_in_index(m) {
            let none: Vec<String> = Vec::new();
            assert(texts(none@) =~= Seq::<Seq<char>>::empty());
            return Output { lines: none, error: None };
        }
        if same(m.lifecycle.as_str(), "superseded") {
            let mut current = match &m.superseded_by {
                Some(succ) => self.print_current(succ.as_str()),
                None => {
                    let none: Vec<String> = Vec::new();
                    assert(texts(none@) =~= Seq::<Seq<char>>::empty());
                    Output { lines: none, error: None }
                },
            };
            if current.error.is_some() {
                return current;
            }
            let mut out = current.lines;
            let ghost first = texts(out@);
            let mut stub = write_heading(m, fmt_ts(m.updated_at).as_str());
            stub.append("\n  ");
            stub.append(memory_label(m).as_str());
            say(&mut out, stub);
            say(&mut out, "".to_string());
            assert(texts(out@) =~= first + seq![stub@, ""@]);
            return Output { lines: out, error: None };
        }
        let mut out: Vec<String> = Vec::new();
        out.push(write_heading(m, fmt_ts(m.updated_at).as_str()));
        out.push(after("  ", memory_label(m).as_str()));
        assert(texts(out@) =~= seq![heading(m@, day(m@.updated_at)), "  "@ + label_of(m@)]);
        say_nonempty(&mut out, "  tags: ", m.tags.as_str());
        let ghost first = texts(out@);
        let body = indent(m.content.as_str(), "  ");
        say(&mut out, body);
        say(&mut out, "".to_string());
        assert(texts(out@) =~= first + seq![indented(m@.content, "  "@), ""@]);
        Output { lines: out, error: None }
    }

    /// Shows the hits of a search, given by position in the order found.
    pub fn print_search(&self, hits: &Vec<usize>) -> (r: Output)
        requires
            forall|i: int| 0 <= i < hits@.len() ==> (#[trigger] hits@[i]) < self.memories@.len(),
        ensures
            r@ == hit_blocks(self@, taken(self@.memories, hits@)),
    {
        let ghost ms = taken(self@.memories, hits@);
        let mut out: Vec<String> = Vec::new();
        let mut i: usize = 0;
        assert(texts(out@) =~= Seq::<Seq<char>>::empty());
        assert(ms.take(0).len() == 0);
        while i < hits.len()
            invariant
                forall|i: int| 0 <= i < hits@.len() ==> (#[trigger] hits@[i]) < self.memories@.len(),
                ms == taken(self@.memories, hits@),
                i <= hits@.len(),
                hit_blocks(self@, ms.take(i as int)) == (OutputV {
                    lines: texts(out@),
                    error: None,
                }),
            decreases hits@.len() - i,
        {
            assert(ms.take(i as int + 1).drop_last() =~= ms.take(i as int));
            assert(ms.take(i as int + 1).last() == self.memories@[hits@[i as int] as int]@);
            let block = self.print_hit(&self.memories[hits[i]]);
            say_all(&mut out, block.lines);
            if block.error.is_some() {
                proof {
                    lemma_hit_error_stays(self@, ms, i as int + 1);
                }
                return Output { lines: out, error: block.error };
            }
            i = i + 1;
        }
        assert(ms.take(i as int) =~= ms);
        Output { lines: out, error: None }
    }
}

/// The arguments of showing a memory.
#[derive(Debug)]
pub struct ShowArgs {
    /// An id or a name.
    pub key: String,
    pub inactive: bool,
    pub json: bool,
}

/// The question for the memories that a key means.
pub open spec fn show_query(key: Seq<char>, inactive: bool) -> QueryV {
    QueryV {
        key: Some(key),
        type_: None,
        active_only: !inactive,
        lifecycle: None,
        scope: ScopeV::All,
        cwd_part: None,
        tag_part: None,
    }
}

/// One memory in full with its label, its source and what replaced it.
pub open spec fn full_block(s: StoreV, m: MemoryV) -> OutputV {
    let first = memory_lines(m) + seq![""@, "trust: "@ + label_of(m)] + nonempty_line(
        "source_ref: "@,
        match m.source_ref {
            Some(x) => x,
            None => Seq::empty(),
        },
    ) + nonempty_line(
        "supersede_reason: "@,
        match m.supersede_reason {
            Some(x) => x,
            None => Seq::empty(),
        },
    );
    match m.superseded_by {
        None => OutputV { lines: first, error: None },
        Some(succ) => {
            let current = current_block(s, succ);
            OutputV { lines: first + seq![""@] + current.lines, error: current.error }
        },
    }
}

/// What showing a key prints.
pub enum ShownV {
    Missing(Seq<char>),
    Json(JsonV),
    Text(OutputV),
}

/// What showing a key prints.
pub enum Shown {
    Missing(String),
    Json(Json),
    Text(Output),
}

impl View for Shown {
    type V = ShownV;

    open spec fn view(&self) -> ShownV {
        match self {
            Shown::Missing(e) => ShownV::Missing(e@),
            Shown::Json(j) => ShownV::Json(j.tree()),
            Shown::Text(o) => ShownV::Text(o@),
        }
    }
}

/// What showing a key prints: nothing found, one memory in full, or a list of
/// those that match.
pub open spec fn shown(s: StoreV, key: Seq<char>, inactive: bool, json: bool) -> ShownV {
    let found = selected(s.memories, show_query(key, inactive), s.memories.len());
    if found.len() == 0 {
        ShownV::Missing("no memory found for id/name="@ + key)
    } else if found.len() == 1 {
        if json {
            ShownV::Json(memory_json(found[0]))
        } else {
            ShownV::Text(full_block(s, found[0]))
        }
    } else if json {
        ShownV::Json(
            JsonV::Object(
                Map::empty().insert(
                    "matches"@,
                    JsonV::Array(found.map_values(|m: MemoryV| memory_json(m))),
                ),
            ),
        )
    } else {
        ShownV::Text(
            OutputV {
                lines: seq!["multiple memories matched id/name="@ + key + "; use exact id"@]
                    + found.map_values(|m: MemoryV| heading(m, day(m.updated_at))),
                error: None,
            },
        )
    }
}

/// A text, or an empty one.
fn or_empty_str(o: &Option<String>) -> (r: String)
    ensures
        r@ == (match opt_text(*o) {
            Some(x) => x,
            None => Seq::empty(),
        }),
{
    match o {
        Some(s) => s.clone(),
        None => String::new(),
    }
}

impl Store {
    /// Shows one memory in full.
    fn print_full(&self, m: &Memory) -> (r: Output)
        ensures
            r@ == full_block(self@, m@),
    {
        let mut out = print_memory(m);
        let ghost a = texts(out@);
        say(&mut out, "".to_string());
        say(&mut out, after("trust: ", memory_label(m).as_str()));
        assert(texts(out@) =~= a + seq![""@, "trust: "@ + label_of(m@)]);
        let sr = or_empty_str(&m.source_ref);
        say_nonempty(&mut out, "source_ref: ", sr.as_str());
        let rs = or_empty_str(&m.supersede_reason);
        say_nonempty(&mut out, "supersede_reason: ", rs.as_str());
        let ghost first = texts(out@);
        match &m.superseded_by {
            None => Output { lines: out, error: None },
            Some(succ) => {
                say(&mut out, "".to_string());
                assert(texts(out@) =~= first + seq![""@]);
                let current = self.print_current(succ.as_str());
                say_all(&mut out, current.lines);
                Output { lines: out, error: current.error }
            },
        }
    }

    /// Shows the memories that a key means.
    pub fn show(&self, args: &ShowArgs) -> (r: Shown)
        ensures
            r@ == shown(self@, args.key@, args.inactive, args.json),
    {
        let q = Query {
            key: Some(args.key.clone()),
            type_: None,
            active_only: !args.inactive,
            lifecycle: None,
            scope: ScopeFilter::All,
            cwd_part: None,
            tag_part: None,
        };
        let at = self.select(&q, self.memories.len());
        let ghost found = selected(self@.memories, q@, self@.memories.len());
        assert(taken(self@.memories, at@).len() == at@.len());
        if at.len() == 0 {
            return Shown::Missing(after("no memory found for id/name=", args.key.as_str()));
        }
        if at.len() == 1 {
            let m = &self.memories[at[0]];
            assert(found[0] == m@) by {
                assert(taken(self@.memories, at@)[0] == m@);
            }
            if args.json {
                return Shown::Json(memory_to_json(m));
            }
            return Shown::Text(self.print_full(m));
        }
        if args.json {
            let mut items: Vec<Json> = Vec::new();
            let mut i: usize = 0;
            while i < at.len()
                invariant
                    i <= at@.len(),
                    items@.len() == i,
                    found == taken(self@.memories, at@),
                    forall|x: int| 0 <= x < at@.len() ==> (#[trigger] at@[x]) < self.memories@.len(),
                    forall|k: int|
                        0 <= k < i ==> (#[trigger] items@[k]).tree() == memory_json(found[k]),
                decreases at@.len() - i,
            {
                assert(found[i as int] == self.memories@[at@[i as int] as int]@);
                items.push(memory_to_json(&self.memories[at[i]]));
                i = i + 1;
            }
            assert(trees(items@) =~= found.map_values(|m: MemoryV| memory_json(m)));
            let mut o = JsonObject::new();
            o.insert("matches", Json::Array(items));
            return Shown::Json(o.done());
        }
        let mut out: Vec<String> = Vec::new();
        let mut l = after("multiple memories matched id/name=", args.key.as_str());
        l.append("; use exact id");
        let first = l.clone();
        say(&mut out, l);
        let mut i: usize = 0;
        assert(texts(out@) =~= seq![first@] + found.take(0).map_values(
            |m: MemoryV| heading(m, day(m.updated_at)),
        ));
        while i < at.len()
            invariant
                i <= at@.len(),
                found == taken(self@.memories, at@),
                forall|x: int| 0 <= x < at@.len() ==> (#[trigger] at@[x]) < self.memories@.len(),
                texts(out@) == seq![first@] + found.take(i as int).map_values(
                    |m: MemoryV| heading(m, day(m.updated_at)),
                ),
            decreases at@.len() - i,
        {
            let m = &self.memories[at[i]];
            assert(found[i as int] == m@);
            let h = write_heading(m, fmt_ts(m.updated_at).as_str());
            let ghost before = texts(out@);
            say(&mut out, h);
            assert(seq![first@] + found.take(i as int + 1).map_values(
                |m: MemoryV| heading(m, day(m.updated_at)),
            ) =~= before.push(heading(m@, day(m@.updated_at))));
            i = i + 1;
        }
        assert(found.take(i as int) =~= found);
        Shown::Text(Output { lines: out, error: None })
    }
}

/// The arguments of listing what is new.
#[derive(Debug)]
pub struct RecentArgs {
    pub n: usize,
    pub type_: Option<String>,
}

/// The question for what is new.
pub open spec fn recent_query(type_: Option<Seq<char>>) -> QueryV {
    QueryV {
        key: None,
        type_,
        active_only: true,
        lifecycle: None,
        scope: ScopeV::All,
        cwd_part: None,
        tag_part: None,
    }
}

/// The arguments of a listing.
#[derive(Debug)]
pub struct ListArgs {
    pub type_: Option<String>,
    pub tag: Option<String>,
    pub cwd: Option<String>,
    pub lifecycle: Option<String>,
    pub limit: usize,
}

/// The question of a listing.
pub open spec fn list_query(a: ListArgs) -> QueryV {
    QueryV {
        key: None,
        type_: opt_text(a.type_),
        active_only: false,
        lifecycle: Some(
            match a.lifecycle {
                Some(l) => l@,
                None => "active"@,
            },
        ),
        scope: ScopeV::All,
        cwd_part: opt_text(a.cwd),
        tag_part: opt_text(a.tag),
    }
}

/// Whether a lifecycle can be listed.
pub open spec fn listable(l: Seq<char>) -> bool {
    l == "active"@ || l == "archived"@ || l == "trashed"@
}

/// The line of a listed memory.
pub open spec fn list_line(m: MemoryV) -> Seq<char> {
    "["@ + m.id + "] ("@ + m.type_ + ") "@ + m.name + (if m.tags.len() == 0 {
        Seq::empty()
    } else {
        "  ["@ + m.tags + "]"@
    }) + " <"@ + m.lifecycle + "> — "@ + m.description + "  ["@ + day(m.updated_at) + "]"@
}

/// Writes the line of a listed memory.
fn write_list_line(m: &Memory) -> (r: String)
    ensures
        r@ == list_line(m@),
{
    let mut tags = String::new();
    if !m.tags.as_str().is_empty() {
        tags = "  [".to_string();
        tags.append(m.tags.as_str());
        tags.append("]");
    }
    assert(tags@ =~= (if m@.tags.len() == 0 {
        Seq::empty()
    } else {
        "  ["@ + m@.tags + "]"@
    }));
    let mut l = "[".to_string();
    l.append(m.id.as_str());
    l.append("] (");
    l.append(m.type_.as_str());
    l.append(") ");
    l.append(m.name.as_str());
    l.append(tags.as_str());
    l.append(" <");
    l.append(m.lifecycle.as_str());
    l.append("> — ");
    l.append(m.description.as_str());
    l.append("  [");
    l.append(fmt_ts(m.updated_at).as_str());
    l.append("]");
    l
}

impl Store {
    /// Lists what is new.
    pub fn recent(&self, args: &RecentArgs) -> (r: Vec<String>)
        ensures
            texts(r@) == selected(
                self@.memories,
                recent_query(opt_text(args.type_)),
                args.n as nat,
            ).map_values(|m: MemoryV| heading(m, day(m.updated_at))),
    {
        let q = Query {
            key: None,
            type_: crate::text::copy_opt(&args.type_),
            active_only: true,
            lifecycle: None,
            scope: ScopeFilter::All,
            cwd_part: None,
            tag_part: None,
        };
        let at = self.select(&q, args.n);
        let ghost found = taken(self@.memories, at@);
        let mut out: Vec<String> = Vec::new();
        let mut i: usize = 0;
        while i < at.len()
            invariant
                i <= at@.len(),
                out@.len() == i,
                found == taken(self@.memories, at@),
                forall|x: int| 0 <= x < at@.len() ==> (#[trigger] at@[x]) < self.memories@.len(),
                forall|k: int|
                    0 <= k < i ==> (#[trigger] out@[k])@ == heading(
                        found[k],
                        day(found[k].updated_at),
                    ),
            decreases at@.len() - i,
        {
            let m = &self.memories[at[i]];
            assert(found[i as int] == m@);
            out.push(write_heading(m, fmt_ts(m.updated_at).as_str()));
            i = i + 1;
        }
        assert(texts(out@) =~= found.map_values(|m: MemoryV| heading(m, day(m.updated_at))));
        out
    }

    /// Lists memories by lifecycle, type, working directory and tag; a lifecycle
    /// that cannot be listed is refused.
    pub fn list(&self, args: &ListArgs) -> (r: Result<Vec<String>, String>)
        ensures
            match r {
                Ok(v) => (args.lifecycle is Some ==> listable(args.lifecycle->0@)) && texts(v@)
                    == selected(self@.memories, list_query(*args), args.limit as nat).map_values(
                    |m: MemoryV| list_line(m),
                ),
                Err(e) => args.lifecycle is Some && !listable(args.lifecycle->0@) && e@
                    == "lifecycle must be one of: active, archived, trashed"@,
            },
    {
        let lifecycle = match &args.lifecycle {
            Some(l) => {
                if !(same(l.as_str(), "active") || same(l.as_str(), "archived") || same(
                    l.as_str(),
                    "trashed",
                )) {
                    return Err("lifecycle must be one of: active, archived, trashed".to_string());
                }
                l.clone()
            },
            None => "active".to_string(),
        };
        let q = Query {
            key: None,
            type_: crate::text::copy_opt(&args.type_),
            active_only: false,
            lifecycle: Some(lifecycle),
            scope: ScopeFilter::All,
            cwd_part: crate::text::copy_opt(&args.cwd),
            tag_part: crate::text::copy_opt(&args.tag),
        };
        let at = self.select(&q, args.limit);
        let ghost found = taken(self@.memories, at@);
        let mut out: Vec<String> = Vec::new();
        let mut i: usize = 0;
        while i < at.len()
            invariant
                i <= at@.len(),
                out@.len() == i,
                found == taken(self@.memories, at@),
                forall|x: int| 0 <= x < at@.len() ==> (#[trigger] at@[x]) < self.memories@.len(),
                forall|k: int| 0 <= k < i ==> (#[trigger] out@[k])@ == list_line(found[k]),
            decreases at@.len() - i,
        {
            let m = &self.memories[at[i]];
            assert(found[i as int] == m@);
            out.push(write_list_line(m));
            i = i + 1;
        }
        assert(texts(out@) =~= found.map_values(|m: MemoryV| list_line(m)));
        Ok(out)
    }
}

} // verus!
