//! The history of a memory: its log entries, what each changed, and the queue
//! of suspected conflicts.
use crate::dates::fmt_ts;
use crate::json::{
    field, int_number, json_parsed, json_text, opt_json, trees, values_equal, Json, JsonObject,
    JsonV,
};
use crate::render::{after, day, nonempty_line, say, say_all, say_nonempty};
use crate::sort::{is_order, order_desc, ordered};
use crate::store::{Conflict, ConflictV, Event, EventV, Store, StoreV};
use crate::text::{
    comes_before, decimal, i64_text, int_text, opt_text, same, text_before, texts, usize_text,
};
use vstd::prelude::*;

verus! {

/// The arguments of listing a memory's log.
#[derive(Debug)]
pub struct EventsArgs {
    pub id: String,
    pub limit: usize,
    pub json: bool,
}

/// The arguments of showing what a log entry changed.
#[derive(Debug)]
pub struct DiffArgs {
    pub id: String,
    pub event: Option<i64>,
    pub json: bool,
}

/// The positions of a memory's log entries.
pub open spec fn entries_of(es: Seq<EventV>, id: Seq<char>) -> Seq<int>
    decreases es.len(),
{
    if es.len() == 0 {
        Seq::empty()
    } else {
        let init = entries_of(es.drop_last(), id);
        if es.last().memory_id == id {
            init.push(es.len() - 1)
        } else {
            init
        }
    }
}

/// The times and numbers of some log entries, by which they are ordered.
pub open spec fn entry_keys(es: Seq<EventV>, at: Seq<int>) -> Seq<(i64, i64)> {
    at.map_values(|i: int| (es[i].ts, es[i].id))
}

/// A memory's log entries, the newest first, at most `limit`.
pub open spec fn entries_shown(es: Seq<EventV>, id: Seq<char>, limit: nat) -> Seq<EventV> {
    let at = entries_of(es, id);
    let order = ordered(entry_keys(es, at));
    Seq::new(crate::sort::at_most(limit, at.len()), |i: int| es[at[order[i] as int]])
}

/// What the log entries at some positions are.
pub open spec fn events_taken(es: Seq<EventV>, at: Seq<usize>) -> Seq<EventV> {
    at.map_values(|i: usize| es[i as int])
}

impl Store {
    /// The positions of a memory's log entries, the newest first.
    pub fn select_events(&self, id: &str, limit: usize) -> (r: Vec<usize>)
        ensures
            forall|i: int| 0 <= i < r@.len() ==> (#[trigger] r@[i]) < self.events@.len(),
            events_taken(self@.events, r@) == entries_shown(self@.events, id@, limit as nat),
    {
        let ghost es = self@.events;
        let mut found: Vec<usize> = Vec::new();
        let mut keys: Vec<(i64, i64)> = Vec::new();
        let mut i: usize = 0;
        let ghost mut at: Seq<int> = Seq::empty();
        assert(at =~= entries_of(es.take(0), id@));
        while i < self.events.len()
            invariant
                es == self@.events,
                i <= self.events@.len(),
                at == entries_of(es.take(i as int), id@),
                found@.len() == at.len(),
                keys@.len() == at.len(),
                forall|k: int| 0 <= k < at.len() ==> found@[k] == #[trigger] at[k],
                forall|k: int| 0 <= k < at.len() ==> 0 <= #[trigger] at[k] < i,
                forall|k: int|
                    0 <= k < at.len() ==> #[trigger] keys@[k] == (es[at[k]].ts, es[at[k]].id),
            decreases self.events@.len() - i,
        {
            let e = &self.events[i];
            assert(es.take(i as int + 1).drop_last() =~= es.take(i as int));
            assert(es.take(i as int + 1).last() == e@);
            assert(es[i as int] == e@);
            if same(e.memory_id.as_str(), id) {
                found.push(i);
                keys.push((e.ts, e.id));
                proof {
                    at = at.push(i as int);
                }
            }
            i = i + 1;
        }
        assert(es.take(i as int) =~= es);
        assert(keys@ =~= entry_keys(es, at));
        let order = order_desc(&keys);
        let n: usize = if order.len() < limit {
            order.len()
        } else {
            limit
        };
        let mut out: Vec<usize> = Vec::new();
        let mut k: usize = 0;
        while k < n
            invariant
                k <= n <= order@.len(),
                is_order(keys@, order@),
                keys@.len() == found@.len(),
                found@.len() == at.len(),
                forall|x: int| 0 <= x < at.len() ==> found@[x] == #[trigger] at[x],
                forall|x: int| 0 <= x < at.len() ==> 0 <= #[trigger] at[x] < self.events@.len(),
                out@.len() == k,
                forall|x: int| 0 <= x < k ==> #[trigger] out@[x] == at[order@[x] as int],
                forall|x: int| 0 <= x < k ==> (#[trigger] out@[x]) < self.events@.len(),
            decreases n - k,
        {
            let p = order[k];
            assert(p < keys@.len());
            assert(found@[p as int] == at[p as int]);
            out.push(found[p]);
            k = k + 1;
        }
        assert(events_taken(es, out@) =~= entries_shown(es, id@, limit as nat));
        out
    }
}

/// A log entry as JSON.
pub open spec fn event_json(e: EventV) -> JsonV {
    JsonV::Object(
        Map::empty().insert("id"@, JsonV::Number(int_number(e.id))).insert(
            "ts"@,
            JsonV::Number(int_number(e.ts)),
        ).insert("actor"@, JsonV::Str(e.actor)).insert("action"@, JsonV::Str(e.action)).insert(
            "before_json"@,
            opt_json(e.before_json),
        ).insert("after_json"@, opt_json(e.after_json)).insert(
            "reason"@,
            JsonV::Str(e.reason),
        ).insert("source_report"@, JsonV::Str(e.source_report)),
    )
}

/// The first lines of a log entry.
pub open spec fn event_lines(e: EventV) -> Seq<Seq<char>> {
    seq![
        "["@ + int_text(e.id as int) + "] "@ + day(e.ts) + " "@ + e.action + " by "@ + e.actor,
    ] + nonempty_line("  reason: "@, e.reason) + nonempty_line("  source: "@, e.source_report)
}

/// The command that shows what a log entry changed.
pub open spec fn diff_command(memory_id: Seq<char>, event: i64) -> Seq<char> {
    "agent memory diff "@ + memory_id + " --event "@ + int_text(event as int)
}

/// A log entry as JSON, with the command that shows what it changed.
pub open spec fn patch_json(memory_id: Seq<char>, e: EventV) -> JsonV {
    JsonV::Object(
        Map::empty().insert("event_id"@, JsonV::Number(int_number(e.id))).insert(
            "ts"@,
            JsonV::Number(int_number(e.ts)),
        ).insert("actor"@, JsonV::Str(e.actor)).insert("action"@, JsonV::Str(e.action)).insert(
            "reason"@,
            JsonV::Str(e.reason),
        ).insert("source_report"@, JsonV::Str(e.source_report)).insert(
            "diff_command"@,
            JsonV::Str(diff_command(memory_id, e.id)),
        ),
    )
}

/// What is printed: JSON, or lines.
pub enum PrintedV {
    Json(JsonV),
    Lines(Seq<Seq<char>>),
}

/// What is printed: JSON, or lines.
pub enum Printed {
    Json(Json),
    Lines(Vec<String>),
}

impl View for Printed {
    type V = PrintedV;

    open spec fn view(&self) -> PrintedV {
        match self {
            Printed::Json(j) => PrintedV::Json(j.tree()),
            Printed::Lines(v) => PrintedV::Lines(texts(v@)),
        }
    }
}

/// The lines of some log entries.
pub open spec fn events_lines(es: Seq<EventV>) -> Seq<Seq<char>>
    decreases es.len(),
{
    if es.len() == 0 {
        Seq::empty()
    } else {
        events_lines(es.drop_last()) + event_lines(es.last())
    }
}

/// The lines of some log entries, each with the command that shows what it
/// changed.
pub open spec fn patch_lines(memory_id: Seq<char>, es: Seq<EventV>) -> Seq<Seq<char>>
    decreases es.len(),
{
    if es.len() == 0 {
        Seq::empty()
    } else {
        patch_lines(memory_id, es.drop_last()) + event_lines(es.last()) + seq![
            "  diff: "@ + diff_command(memory_id, es.last().id),
        ]
    }
}

/// Writes a log entry as JSON.
fn event_to_json(e: &Event) -> (r: Json)
    ensures
        r.tree() == event_json(e@),
{
    let mut o = JsonObject::new();
    o.insert_int("id", e.id);
    o.insert_int("ts", e.ts);
    o.insert_str("actor", e.actor.as_str());
    o.insert_str("action", e.action.as_str());
    o.insert_opt("before_json", &e.before_json);
    o.insert_opt("after_json", &e.after_json);
    o.insert_str("reason", e.reason.as_str());
    o.insert_str("source_report", e.source_report.as_str());
    o.done()
}

/// Writes the first lines of a log entry.
fn event_to_lines(e: &Event) -> (r: Vec<String>)
    ensures
        texts(r@) == event_lines(e@),
{
    let mut out: Vec<String> = Vec::new();
    let mut l = "[".to_string();
    l.append(i64_text(e.id).as_str());
    l.append("] ");
    l.append(fmt_ts(e.ts).as_str());
    l.append(" ");
    l.append(e.action.as_str());
    l.append(" by ");
    l.append(e.actor.as_str());
    let ghost first = l@;
    out.push(l);
    assert(texts(out@) =~= seq![first]);
    say_nonempty(&mut out, "  reason: ", e.reason.as_str());
    say_nonempty(&mut out, "  source: ", e.source_report.as_str());
    out
}

/// Writes the command that shows what a log entry changed.
fn write_diff_command(memory_id: &str, event: i64) -> (r: String)
    ensures
        r@ == diff_command(memory_id@, event),
{
    let mut c = "agent memory diff ".to_string();
    c.append(memory_id);
    c.append(" --event ");
    c.append(i64_text(event).as_str());
    c
}

impl Store {
    /// Lists a memory's log.
    pub fn list_events(&self, args: &EventsArgs) -> (r: Printed)
        ensures
            r@ == ({
                let es = entries_shown(self@.events, args.id@, args.limit as nat);
                if args.json {
                    PrintedV::Json(
                        JsonV::Object(
                            Map::empty().insert(
                                "events"@,
                                JsonV::Array(es.map_values(|e: EventV| event_json(e))),
                            ),
                        ),
                    )
                } else {
                    PrintedV::Lines(events_lines(es))
                }
            }),
    {
        let at = self.select_events(args.id.as_str(), args.limit);
        let ghost es = events_taken(self@.events, at@);
        if args.json {
            let mut items: Vec<Json> = Vec::new();
            let mut i: usize = 0;
            while i < at.len()
                invariant
                    i <= at@.len(),
                    items@.len() == i,
                    es == events_taken(self@.events, at@),
                    forall|x: int| 0 <= x < at@.len() ==> (#[trigger] at@[x]) < self.events@.len(),
                    forall|k: int| 0 <= k < i ==> (#[trigger] items@[k]).tree() == event_json(es[k]),
                decreases at@.len() - i,
            {
                assert(es[i as int] == self.events@[at@[i as int] as int]@);
                items.push(event_to_json(&self.events[at[i]]));
                i = i + 1;
            }
            assert(trees(items@) =~= es.map_values(|e: EventV| event_json(e)));
            let mut o = JsonObject::new();
            o.insert("events", Json::Array(items));
            return Printed::Json(o.done());
        }
        let mut out: Vec<String> = Vec::new();
        let mut i: usize = 0;
        assert(texts(out@) =~= events_lines(es.take(0)));
        while i < at.len()
            invariant
                i <= at@.len(),
                es == events_taken(self@.events, at@),
                forall|x: int| 0 <= x < at@.len() ==> (#[trigger] at@[x]) < self.events@.len(),
                texts(out@) == events_lines(es.take(i as int)),
            decreases at@.len() - i,
        {
            assert(es.take(i as int + 1).drop_last() =~= es.take(i as int));
            assert(es.take(i as int + 1).last() == self.events@[at@[i as int] as int]@);
            say_all(&mut out, event_to_lines(&self.events[at[i]]));
            i = i + 1;
        }
        assert(es.take(i as int) =~= es);
        Printed::Lines(out)
    }

    /// Lists a memory's log with the commands that show what each entry changed.
    pub fn patch_log(&self, args: &EventsArgs) -> (r: Printed)
        ensures
            r@ == ({
                let es = entries_shown(self@.events, args.id@, args.limit as nat);
                if args.json {
                    PrintedV::Json(
                        JsonV::Object(
                            Map::empty().insert("memory_id"@, JsonV::Str(args.id@)).insert(
                                "patches"@,
                                JsonV::Array(es.map_values(|e: EventV| patch_json(args.id@, e))),
                            ),
                        ),
                    )
                } else {
                    PrintedV::Lines(patch_lines(args.id@, es))
                }
            }),
    {
        let at = self.select_events(args.id.as_str(), args.limit);
        let ghost es = events_taken(self@.events, at@);
        if args.json {
            let mut items: Vec<Json> = Vec::new();
            let mut i: usize = 0;
            while i < at.len()
                invariant
                    i <= at@.len(),
                    items@.len() == i,
                    es == events_taken(self@.events, at@),
                    forall|x: int| 0 <= x < at@.len() ==> (#[trigger] at@[x]) < self.events@.len(),
                    forall|k: int|
                        0 <= k < i ==> (#[trigger] items@[k]).tree() == patch_json(
                            args.id@,
                            es[k],
                        ),
                decreases at@.len() - i,
            {
                let e = &self.events[at[i]];
                assert(es[i as int] == e@);
                let mut o = JsonObject::new();
                o.insert_int("event_id", e.id);
                o.insert_int("ts", e.ts);
                o.insert_str("actor", e.actor.as_str());
                o.insert_str("action", e.action.as_str());
                o.insert_str("reason", e.reason.as_str());
                o.insert_str("source_report", e.source_report.as_str());
                o.insert_str(
                    "diff_command",
                    write_diff_command(args.id.as_str(), e.id).as_str(),
                );
                items.push(o.done());
                i = i + 1;
            }
            assert(trees(items@) =~= es.map_values(|e: EventV| patch_json(args.id@, e)));
            let mut o = JsonObject::new();
            o.insert_str("memory_id", args.id.as_str());
            o.insert("patches", Json::Array(items));
            return Printed::Json(o.done());
        }
        let mut out: Vec<String> = Vec::new();
        let mut i: usize = 0;
        assert(texts(out@) =~= patch_lines(args.id@, es.take(0)));
        while i < at.len()
            invariant
                i <= at@.len(),
                es == events_taken(self@.events, at@),
                forall|x: int| 0 <= x < at@.len() ==> (#[trigger] at@[x]) < self.events@.len(),
                texts(out@) == patch_lines(args.id@, es.take(i as int)),
            decreases at@.len() - i,
        {
            let e = &self.events[at[i]];
            assert(es.take(i as int + 1).drop_last() =~= es.take(i as int));
            assert(es.take(i as int + 1).last() == e@);
            say_all(&mut out, event_to_lines(e));
            let ghost before = texts(out@);
            let cmd = write_diff_command(args.id.as_str(), e.id);
            say(&mut out, after("  diff: ", cmd.as_str()));
            assert(texts(out@) =~= before + seq!["  diff: "@ + cmd@]);
            i = i + 1;
        }
        assert(es.take(i as int) =~= es);
        Printed::Lines(out)
    }
}

/// A snapshot as a value: what its text denotes, null where there is none.
pub open spec fn snapshot_value(raw: Option<Seq<char>>) -> Option<JsonV> {
    match raw {
        Some(s) => json_parsed(s),
        None => Some(JsonV::Null),
    }
}

/// Reads a snapshot; `None` where its text is no JSON.
pub fn parse_event_json(raw: &Option<String>) -> (r: Option<Json>)
    ensures
        match r {
            Some(j) => snapshot_value(opt_text(*raw)) == Some(j.tree()),
            None => snapshot_value(opt_text(*raw)) is None,
        },
{
    match raw {
        Some(s) => Json::parse(s.as_str()),
        None => Some(Json::Null),
    }
}

/// The value of a field, null where it is missing.
pub open spec fn value_or_null(t: JsonV, key: Seq<char>) -> JsonV {
    match field(t, key) {
        Some(v) => v,
        None => JsonV::Null,
    }
}

/// The value of a field, null where it is missing.
pub fn value_for_key(value: &Json, key: &str) -> (r: Json)
    ensures
        r.tree() == value_or_null(value.tree(), key@),
{
    match value.get(key) {
        Some(j) => j.copy(),
        None => Json::Null,
    }
}

/// Whether a value has a field.
pub open spec fn has_key(t: JsonV, key: Seq<char>) -> bool {
    field(t, key) is Some
}

/// Whether texts are in strictly ascending order.
pub open spec fn ascending(ks: Seq<Seq<char>>) -> bool {
    forall|i: int, j: int|
        0 <= i < j < ks.len() ==> text_before(#[trigger] ks[i], #[trigger] ks[j])
}

/// Whether texts are the fields of two values, in ascending order.
pub open spec fn is_field_list(ks: Seq<Seq<char>>, a: JsonV, b: JsonV) -> bool {
    ascending(ks) && forall|k: Seq<char>| #[trigger]
        ks.contains(k) <==> has_key(a, k) || has_key(b, k)
}

/// One field that changed.
pub struct ChangeV {
    pub field: Seq<char>,
    pub before: JsonV,
    pub after: JsonV,
}

/// One field that changed.
pub struct Change {
    pub field: String,
    pub before: Json,
    pub after: Json,
}

impl View for Change {
    type V = ChangeV;

    open spec fn view(&self) -> ChangeV {
        ChangeV { field: self.field@, before: self.before.tree(), after: self.after.tree() }
    }
}

/// What a list of changes is.
pub open spec fn changes_view(v: Seq<Change>) -> Seq<ChangeV> {
    v.map_values(|c: Change| c@)
}

/// The fields among some whose values differ.
pub open spec fn changes_among(ks: Seq<Seq<char>>, a: JsonV, b: JsonV) -> Seq<ChangeV>
    decreases ks.len(),
{
    if ks.len() == 0 {
        Seq::empty()
    } else {
        let init = changes_among(ks.drop_last(), a, b);
        let k = ks.last();
        if values_equal(value_or_null(a, k), value_or_null(b, k)) {
            init
        } else {
            init.push(
                ChangeV { field: k, before: value_or_null(a, k), after: value_or_null(b, k) },
            )
        }
    }
}

/// No text comes before itself.
proof fn lemma_before_irreflexive(a: Seq<char>)
    ensures
        !text_before(a, a),
    decreases a.len(),
{
    if a.len() > 0 {
        lemma_before_irreflexive(a.drop_first());
    }
}

/// The order of texts is transitive.
proof fn lemma_before_transitive(a: Seq<char>, b: Seq<char>, c: Seq<char>)
    requires
        text_before(a, b),
        text_before(b, c),
    ensures
        text_before(a, c),
    decreases a.len(),
{
    if a.len() > 0 && b.len() > 0 && c.len() > 0 && a[0] == b[0] && b[0] == c[0] {
        lemma_before_transitive(a.drop_first(), b.drop_first(), c.drop_first());
    }
}

/// Of two different texts one comes before the other.
proof fn lemma_before_total(a: Seq<char>, b: Seq<char>)
    requires
        a != b,
    ensures
        text_before(a, b) || text_before(b, a),
    decreases a.len(),
{
    if a.len() > 0 && b.len() > 0 {
        if a[0] == b[0] {
            if a.drop_first() == b.drop_first() {
                assert(a =~= seq![a[0]] + a.drop_first());
                assert(b =~= seq![b[0]] + b.drop_first());
            }
            lemma_before_total(a.drop_first(), b.drop_first());
        } else {
            if a[0] as u32 == b[0] as u32 {
                vstd::utf8::char_u32_cast(a[0], a[0] as u32);
                vstd::utf8::char_u32_cast(b[0], a[0] as u32);
            }
        }
    } else if a.len() == 0 && b.len() == 0 {
        assert(a =~= b);
    }
}

/// Puts a text into an ascending list, unless it is there.
pub(crate) fn insert_ascending(ks: &mut Vec<String>, k: &str)
    requires
        ascending(texts(old(ks)@)),
    ensures
        ascending(texts(final(ks)@)),
        forall|x: Seq<char>| #[trigger]
            texts(final(ks)@).contains(x) <==> texts(old(ks)@).contains(x) || x == k@,
{
    let ghost before = texts(ks@);
    let mut i: usize = 0;
    while i < ks.len() && comes_before(ks[i].as_str(), k)
        invariant
            *ks == *old(ks),
            before == texts(ks@),
            i <= ks@.len(),
            forall|j: int| 0 <= j < i ==> text_before(#[trigger] before[j], k@),
        decreases ks@.len() - i,
    {
        assert(before[i as int] == ks@[i as int]@);
        i = i + 1;
    }
    if i < ks.len() {
        assert(before[i as int] == ks@[i as int]@);
        if same(ks[i].as_str(), k) {
            assert(before.contains(k@)) by {
                assert(before[i as int] == k@);
            }
            return;
        }
    }
    ks.insert(i, k.to_owned());
    proof {
        let now = texts(ks@);
        assert(now =~= before.insert(i as int, k@));
        assert forall|a: int, b: int| 0 <= a < b < now.len() implies text_before(
            #[trigger] now[a],
            #[trigger] now[b],
        ) by {
            if i < before.len() {
                lemma_before_total(before[i as int], k@);
            }
            if b < i {
                assert(now[a] == before[a] && now[b] == before[b]);
            } else if b == i {
                assert(now[a] == before[a]);
            } else if a < i {
                assert(now[a] == before[a] && now[b] == before[b - 1]);
            } else if a == i {
                assert(now[b] == before[b - 1]);
                if b - 1 > i {
                    assert(text_before(before[i as int], before[b - 1]));
                    lemma_before_transitive(k@, before[i as int], before[b - 1]);
                }
            } else {
                assert(now[a] == before[a - 1] && now[b] == before[b - 1]);
            }
        }
        assert forall|x: Seq<char>| #[trigger] now.contains(x) <==> before.contains(x) || x
            == k@ by {
            if now.contains(x) {
                let j = choose|j: int| 0 <= j < now.len() && now[j] == x;
                if j < i {
                    assert(before[j] == x);
                } else if j > i {
                    assert(before[j - 1] == x);
                }
            }
            if before.contains(x) {
                let j = choose|j: int| 0 <= j < before.len() && before[j] == x;
                if j < i {
                    assert(now[j] == x);
                } else {
                    assert(now[j + 1] == x);
                }
            }
            if x == k@ {
                assert(now[i as int] == x);
            }
        }
    }
}

/// Puts the fields of a value into an ascending list.
fn insert_fields(ks: &mut Vec<String>, v: &Json)
    requires
        ascending(texts(old(ks)@)),
    ensures
        ascending(texts(final(ks)@)),
        forall|x: Seq<char>| #[trigger]
            texts(final(ks)@).contains(x) <==> texts(old(ks)@).contains(x) || has_key(v.tree(), x),
{
    if let Json::Object(es) = v {
        let ghost start = texts(ks@);
        let mut i: usize = 0;
        while i < es.len()
            invariant
                i <= es@.len(),
                start == texts(old(ks)@),
                ascending(texts(ks@)),
                forall|x: Seq<char>| #[trigger]
                    texts(ks@).contains(x) <==> start.contains(x) || exists|j: int|
                        0 <= j < i && (#[trigger] es@[j]).0@ == x,
            decreases es@.len() - i,
        {
            let ghost prev = texts(ks@);
            insert_ascending(ks, es[i].0.as_str());
            assert forall|x: Seq<char>| #[trigger] texts(ks@).contains(x) <==> start.contains(x)
                || exists|j: int| 0 <= j < i + 1 && (#[trigger] es@[j]).0@ == x by {
                assert(texts(ks@).contains(x) <==> prev.contains(x) || x == es@[i as int].0@);
                if prev.contains(x) && !start.contains(x) {
                    let j = choose|j: int| 0 <= j < i && (#[trigger] es@[j]).0@ == x;
                    assert(es@[j].0@ == x);
                }
                if exists|j: int| 0 <= j < i + 1 && (#[trigger] es@[j]).0@ == x {
                    let j = choose|j: int| 0 <= j < i + 1 && (#[trigger] es@[j]).0@ == x;
                    if j < i {
                        assert(prev.contains(x));
                    }
                }
            }
            i = i + 1;
        }
        assert forall|x: Seq<char>| has_key(v.tree(), x) <==> exists|j: int|
            0 <= j < es@.len() && (#[trigger] es@[j]).0@ == x by {
            crate::json::lemma_object_keys(*es, x);
        }
    }
}

/// What a log entry changed, by field.
pub fn field_changes(before: &Json, after: &Json) -> (r: Vec<Change>)
    ensures
        exists|ks: Seq<Seq<char>>|
            is_field_list(ks, before.tree(), after.tree()) && changes_view(r@)
                == #[trigger] changes_among(ks, before.tree(), after.tree()),
{
    let mut keys: Vec<String> = Vec::new();
    assert(ascending(texts(keys@)));
    let ghost none = texts(keys@);
    insert_fields(&mut keys, before);
    insert_fields(&mut keys, after);
    let ghost ks = texts(keys@);
    assert forall|k: Seq<char>| #[trigger] ks.contains(k) <==> has_key(before.tree(), k) || has_key(
        after.tree(),
        k,
    ) by {
        assert(!none.contains(k));
    }
    let mut out: Vec<Change> = Vec::new();
    let mut i: usize = 0;
    assert(changes_view(out@) =~= changes_among(ks.take(0), before.tree(), after.tree()));
    while i < keys.len()
        invariant
            ks == texts(keys@),
            i <= keys@.len(),
            changes_view(out@) == changes_among(ks.take(i as int), before.tree(), after.tree()),
        decreases keys@.len() - i,
    {
        assert(ks.take(i as int + 1).drop_last() =~= ks.take(i as int));
        assert(ks.take(i as int + 1).last() == keys@[i as int]@);
        let a = value_for_key(before, keys[i].as_str());
        let b = value_for_key(after, keys[i].as_str());
        if !a.same_as(&b) {
            let c = Change { field: keys[i].clone(), before: a, after: b };
            let ghost prev = out@;
            out.push(c);
            assert(changes_view(out@) =~= changes_view(prev).push(c@));
        }
        i = i + 1;
    }
    assert(ks.take(i as int) =~= ks);
    assert(is_field_list(ks, before.tree(), after.tree()));
    out
}

/// There is one list of the fields of two values.
pub proof fn law_field_list_is_unique(a: JsonV, b: JsonV, p: Seq<Seq<char>>, q: Seq<Seq<char>>)
    requires
        is_field_list(p, a, b),
        is_field_list(q, a, b),
    ensures
        p == q,
    decreases p.len(),
{
    lemma_ascending_unique(p, q);
}

/// Ascending lists of the same texts are equal.
proof fn lemma_ascending_unique(p: Seq<Seq<char>>, q: Seq<Seq<char>>)
    requires
        ascending(p),
        ascending(q),
        forall|k: Seq<char>| #[trigger] p.contains(k) <==> q.contains(k),
    ensures
        p == q,
    decreases p.len(),
{
    if p.len() == 0 {
        if q.len() > 0 {
            assert(q.contains(q[0]));
            assert(p.contains(q[0]));
        }
        assert(p =~= q);
    } else {
        assert(p.contains(p.last())) by {
            assert(p[p.len() - 1] == p.last());
        }
        assert(q.contains(p.last()));
        let j = choose|j: int| 0 <= j < q.len() && q[j] == p.last();
        assert(q.contains(q.last())) by {
            assert(q[q.len() - 1] == q.last());
        }
        assert(p.contains(q.last()));
        let i = choose|i: int| 0 <= i < p.len() && p[i] == q.last();
        if j < q.len() - 1 {
            assert(text_before(q[j], q[q.len() - 1]));
            if i < p.len() - 1 {
                assert(text_before(p[i], p[p.len() - 1]));
                lemma_before_transitive(p.last(), q.last(), p.last());
                lemma_before_irreflexive(p.last());
            } else {
                lemma_before_irreflexive(p.last());
            }
        }
        assert(p.last() == q.last());
        let a = p.drop_last();
        let b = q.drop_last();
        assert forall|k: Seq<char>| #[trigger] a.contains(k) <==> b.contains(k) by {
            if a.contains(k) {
                let x = choose|x: int| 0 <= x < a.len() && a[x] == k;
                assert(p[x] == k);
                assert(p.contains(k));
                assert(text_before(p[x], p[p.len() - 1]));
                let y = choose|y: int| 0 <= y < q.len() && q[y] == k;
                if y == q.len() - 1 {
                    lemma_before_irreflexive(k);
                }
                assert(b[y] == k);
            }
            if b.contains(k) {
                let x = choose|x: int| 0 <= x < b.len() && b[x] == k;
                assert(q[x] == k);
                assert(q.contains(k));
                assert(text_before(q[x], q[q.len() - 1]));
                assert(p.contains(k));
                let y = choose|y: int| 0 <= y < p.len() && p[y] == k;
                if y == p.len() - 1 {
                    lemma_before_irreflexive(k);
                }
                assert(a[y] == k);
            }
        }
        assert forall|x: int, y: int| 0 <= x < y < a.len() implies text_before(
            #[trigger] a[x],
            #[trigger] a[y],
        ) by {
            assert(text_before(p[x], p[y]));
        }
        assert forall|x: int, y: int| 0 <= x < y < b.len() implies text_before(
            #[trigger] b[x],
            #[trigger] b[y],
        ) by {
            assert(text_before(q[x], q[y]));
        }
        lemma_ascending_unique(a, b);
        assert(p =~= a.push(p.last()));
        assert(q =~= b.push(q.last()));
    }
}

/// The log entry that is asked for: the one with a number, else the newest of
/// the memory.
pub open spec fn wanted_event(es: Seq<EventV>, id: Seq<char>, event: Option<i64>) -> Option<EventV> {
    match event {
        Some(n) => numbered_event(es, id, n),
        None => {
            let shown = entries_shown(es, id, 1);
            if shown.len() > 0 {
                Some(shown[0])
            } else {
                None
            }
        },
    }
}

/// The first log entry of a memory with a number.
pub open spec fn numbered_event(es: Seq<EventV>, id: Seq<char>, n: i64) -> Option<EventV>
    decreases es.len(),
{
    if es.len() == 0 {
        None
    } else {
        match numbered_event(es.drop_last(), id, n) {
            Some(e) => Some(e),
            None => if es.last().memory_id == id && es.last().id == n {
                Some(es.last())
            } else {
                None
            },
        }
    }
}

/// A log entry found among the first is the one found.
proof fn lemma_numbered_stays(es: Seq<EventV>, id: Seq<char>, n: i64, k: int)
    requires
        0 <= k <= es.len(),
        numbered_event(es.take(k), id, n) is Some,
    ensures
        numbered_event(es, id, n) == numbered_event(es.take(k), id, n),
    decreases es.len() - k,
{
    if k < es.len() {
        assert(es.take(k + 1).drop_last() =~= es.take(k));
        lemma_numbered_stays(es, id, n, k + 1);
    } else {
        assert(es.take(k) =~= es);
    }
}

/// A change as JSON.
pub open spec fn change_json(c: ChangeV) -> JsonV {
    JsonV::Object(
        Map::empty().insert("field"@, JsonV::Str(c.field)).insert("before"@, c.before).insert(
            "after"@,
            c.after,
        ),
    )
}

/// What a log entry changed, as JSON.
pub open spec fn diff_json(id: Seq<char>, e: EventV, cs: Seq<ChangeV>) -> JsonV {
    JsonV::Object(
        Map::empty().insert("event_id"@, JsonV::Number(int_number(e.id))).insert(
            "memory_id"@,
            JsonV::Str(id),
        ).insert("ts"@, JsonV::Number(int_number(e.ts))).insert(
            "actor"@,
            JsonV::Str(e.actor),
        ).insert("action"@, JsonV::Str(e.action)).insert("reason"@, JsonV::Str(e.reason)).insert(
            "source_report"@,
            JsonV::Str(e.source_report),
        ).insert("changes"@, JsonV::Array(cs.map_values(|c: ChangeV| change_json(c)))),
    )
}

/// The lines of some changes.
pub open spec fn change_lines(cs: Seq<ChangeV>) -> Seq<Seq<char>>
    decreases cs.len(),
{
    if cs.len() == 0 {
        Seq::empty()
    } else {
        change_lines(cs.drop_last()) + seq![
            cs.last().field + ":"@,
            "- "@ + json_text(cs.last().before),
            "+ "@ + json_text(cs.last().after),
        ]
    }
}

/// What a log entry changed, as lines.
pub open spec fn diff_lines(id: Seq<char>, e: EventV, cs: Seq<ChangeV>) -> Seq<Seq<char>> {
    seq![
        "memory "@ + id + " event "@ + int_text(e.id as int) + ": "@ + e.action + " by "@ + e.actor
            + " ("@ + day(e.ts) + ")"@,
    ] + nonempty_line("reason: "@, e.reason) + nonempty_line("source: "@, e.source_report) + seq![
        ""@,
    ] + (if cs.len() == 0 {
        seq!["(no field changes)"@]
    } else {
        change_lines(cs)
    })
}

/// Why what a log entry changed cannot be shown.
#[derive(Debug)]
pub enum DiffError {
    /// There is no such entry.
    NoEvent,
    /// A snapshot is no JSON.
    BadSnapshot,
}

/// Writes some changes as JSON.
fn changes_to_json(cs: &Vec<Change>) -> (r: Json)
    ensures
        r.tree() == JsonV::Array(changes_view(cs@).map_values(|c: ChangeV| change_json(c))),
{
    let mut items: Vec<Json> = Vec::new();
    let mut i: usize = 0;
    while i < cs.len()
        invariant
            i <= cs@.len(),
            items@.len() == i,
            forall|k: int| 0 <= k < i ==> (#[trigger] items@[k]).tree() == change_json(cs@[k]@),
        decreases cs@.len() - i,
    {
        let mut o = JsonObject::new();
        o.insert_str("field", cs[i].field.as_str());
        o.insert("before", cs[i].before.copy());
        o.insert("after", cs[i].after.copy());
        items.push(o.done());
        i = i + 1;
    }
    assert(trees(items@) =~= changes_view(cs@).map_values(|c: ChangeV| change_json(c)));
    Json::Array(items)
}

/// Writes some changes as lines.
fn changes_to_lines(cs: &Vec<Change>) -> (r: Vec<String>)
    ensures
        texts(r@) == change_lines(changes_view(cs@)),
{
    let ghost all = changes_view(cs@);
    let mut out: Vec<String> = Vec::new();
    let mut i: usize = 0;
    assert(texts(out@) =~= change_lines(all.take(0)));
    while i < cs.len()
        invariant
            all == changes_view(cs@),
            i <= cs@.len(),
            texts(out@) == change_lines(all.take(i as int)),
        decreases cs@.len() - i,
    {
        let c = &cs[i];
        assert(all.take(i as int + 1).drop_last() =~= all.take(i as int));
        assert(all.take(i as int + 1).last() == c@);
        let ghost before = texts(out@);
        say(&mut out, after(c.field.as_str(), ":"));
        say(&mut out, after("- ", c.before.text().as_str()));
        say(&mut out, after("+ ", c.after.text().as_str()));
        assert(texts(out@) =~= before + seq![
            c@.field + ":"@,
            "- "@ + json_text(c@.before),
            "+ "@ + json_text(c@.after),
        ]);
        i = i + 1;
    }
    assert(all.take(i as int) =~= all);
    out
}

/// Shows what a log entry changed, given the changes.
pub fn print_diff(id: &str, e: &Event, cs: &Vec<Change>, json: bool) -> (r: Printed)
    ensures
        r@ == (if json {
            PrintedV::Json(diff_json(id@, e@, changes_view(cs@)))
        } else {
            PrintedV::Lines(diff_lines(id@, e@, changes_view(cs@)))
        }),
{
    if json {
        let mut o = JsonObject::new();
        o.insert_int("event_id", e.id);
        o.insert_str("memory_id", id);
        o.insert_int("ts", e.ts);
        o.insert_str("actor", e.actor.as_str());
        o.insert_str("action", e.action.as_str());
        o.insert_str("reason", e.reason.as_str());
        o.insert_str("source_report", e.source_report.as_str());
        o.insert("changes", changes_to_json(cs));
        return Printed::Json(o.done());
    }
    let mut out: Vec<String> = Vec::new();
    let mut l = "memory ".to_string();
    l.append(id);
    l.append(" event ");
    l.append(i64_text(e.id).as_str());
    l.append(": ");
    l.append(e.action.as_str());
    l.append(" by ");
    l.append(e.actor.as_str());
    l.append(" (");
    l.append(fmt_ts(e.ts).as_str());
    l.append(")");
    let ghost first = l@;
    out.push(l);
    assert(texts(out@) =~= seq![first]);
    say_nonempty(&mut out, "reason: ", e.reason.as_str());
    say_nonempty(&mut out, "source: ", e.source_report.as_str());
    let ghost second = texts(out@);
    say(&mut out, "".to_string());
    assert(texts(out@) =~= second + seq![""@]);
    let ghost third = texts(out@);
    assert(changes_view(cs@).len() == cs@.len());
    if cs.len() == 0 {
        say(&mut out, "(no field changes)".to_string());
        assert(texts(out@) =~= third + seq!["(no field changes)"@]);
    } else {
        say_all(&mut out, changes_to_lines(cs));
    }
    Printed::Lines(out)
}

/// Whether a printed output shows what a log entry changed.
pub open spec fn shows_diff(
    p: PrintedV,
    id: Seq<char>,
    e: EventV,
    before: JsonV,
    after: JsonV,
    json: bool,
) -> bool {
    exists|ks: Seq<Seq<char>>|
        is_field_list(ks, before, after) && p == (if json {
            PrintedV::Json(diff_json(id, e, #[trigger] changes_among(ks, before, after)))
        } else {
            PrintedV::Lines(diff_lines(id, e, changes_among(ks, before, after)))
        })
}

impl Store {
    /// The log entry that is asked for.
    pub fn find_event(&self, args: &DiffArgs) -> (r: Option<&Event>)
        ensures
            match r {
                Some(e) => wanted_event(self@.events, args.id@, args.event) == Some(e@),
                None => wanted_event(self@.events, args.id@, args.event) is None,
            },
    {
        let ghost es = self@.events;
        match args.event {
            None => {
                let at = self.select_events(args.id.as_str(), 1);
                assert(events_taken(es, at@).len() == at@.len());
                if at.len() > 0 {
                    assert(events_taken(es, at@)[0] == self.events@[at@[0] as int]@);
                    Some(&self.events[at[0]])
                } else {
                    None
                }
            },
            Some(n) => {
                let mut i: usize = 0;
                while i < self.events.len()
                    invariant
                        es == self@.events,
                        args.event == Some(n),
                        i <= self.events@.len(),
                        numbered_event(es.take(i as int), args.id@, n) is None,
                    decreases self.events@.len() - i,
                {
                    let e = &self.events[i];
                    assert(es.take(i as int + 1).drop_last() =~= es.take(i as int));
                    assert(es.take(i as int + 1).last() == e@);
                    if same(e.memory_id.as_str(), args.id.as_str()) && e.id == n {
                        proof {
                            lemma_numbered_stays(es, args.id@, n, i as int + 1);
                        }
                        return Some(e);
                    }
                    i = i + 1;
                }
                assert(es.take(i as int) =~= es);
                None
            },
        }
    }

    /// Shows what a log entry changed.
    pub fn diff(&self, args: &DiffArgs) -> (r: Result<Printed, DiffError>)
        ensures
            match wanted_event(self@.events, args.id@, args.event) {
                None => r == Err::<Printed, DiffError>(DiffError::NoEvent),
                Some(e) => match (
                    snapshot_value(e.before_json),
                    snapshot_value(e.after_json),
                ) {
                    (Some(before), Some(after)) => r is Ok && shows_diff(
                        r->Ok_0@,
                        args.id@,
                        e,
                        before,
                        after,
                        args.json,
                    ),
                    _ => r == Err::<Printed, DiffError>(DiffError::BadSnapshot),
                },
            },
    {
        let e = match self.find_event(args) {
            Some(e) => e,
            None => {
                return Err(DiffError::NoEvent);
            },
        };
        let before = match parse_event_json(&e.before_json) {
            Some(j) => j,
            None => {
                return Err(DiffError::BadSnapshot);
            },
        };
        let after = match parse_event_json(&e.after_json) {
            Some(j) => j,
            None => {
                return Err(DiffError::BadSnapshot);
            },
        };
        let cs = field_changes(&before, &after);
        Ok(print_diff(args.id.as_str(), e, &cs, args.json))
    }
}

/// The arguments of the conflict queue.
#[derive(Debug)]
pub struct ConflictsArgs {
    pub dismiss: Option<i64>,
    pub reason: String,
    pub all: bool,
    pub json: bool,
}

/// Whether a conflict is listed: open unless all are wanted, between two
/// memories that are stored.
pub open spec fn listed_conflict(s: StoreV, c: ConflictV, all: bool) -> bool {
    (all || c.status == "open"@) && s.get(c.old_id) is Some && s.get(c.new_id) is Some
}

/// The positions of the listed conflicts among the first `n`.
pub open spec fn conflict_positions(s: StoreV, all: bool, n: nat) -> Seq<int>
    decreases n,
{
    if n == 0 {
        Seq::empty()
    } else {
        let init = conflict_positions(s, all, (n - 1) as nat);
        if listed_conflict(s, s.conflicts[n - 1], all) {
            init.push(n - 1)
        } else {
            init
        }
    }
}

/// The times of some conflicts, by which they are ordered.
pub open spec fn conflict_keys(cs: Seq<ConflictV>, at: Seq<int>) -> Seq<(i64, i64)> {
    at.map_values(|i: int| (cs[i].created_at, 0i64))
}

/// The positions of the listed conflicts, the newest first.
pub open spec fn conflicts_shown(s: StoreV, all: bool) -> Seq<int> {
    let at = conflict_positions(s, all, s.conflicts.len());
    let order = ordered(conflict_keys(s.conflicts, at));
    Seq::new(at.len(), |i: int| at[order[i] as int])
}

/// A conflict as JSON, given how its confidence is.
pub open spec fn conflict_json(s: StoreV, c: ConflictV, conf: JsonV) -> JsonV {
    JsonV::Object(
        Map::empty().insert("id"@, JsonV::Number(int_number(c.id))).insert(
            "old_id"@,
            JsonV::Str(c.old_id),
        ).insert("old_name"@, JsonV::Str(s.get(c.old_id)->0.name)).insert(
            "new_id"@,
            JsonV::Str(c.new_id),
        ).insert("new_name"@, JsonV::Str(s.get(c.new_id)->0.name)).insert(
            "relation"@,
            JsonV::Str(c.relation),
        ).insert("confidence"@, conf).insert("rationale"@, JsonV::Str(c.rationale)).insert(
            "status"@,
            JsonV::Str(c.status),
        ).insert("created_at"@, JsonV::Number(int_number(c.created_at))),
    )
}

/// A conflict as lines, given how its confidence is shown.
pub open spec fn conflict_lines(s: StoreV, c: ConflictV, conf: Seq<char>) -> Seq<Seq<char>> {
    let n = int_text(c.id as int);
    seq![
        "#"@ + n + " ["@ + c.status + "] "@ + c.new_id + " ("@ + s.get(c.new_id)->0.name + ") --"@
            + c.relation + " "@ + conf + "--> "@ + c.old_id + " ("@ + s.get(c.old_id)->0.name
            + ")  ["@ + day(c.created_at) + "]"@,
    ] + nonempty_line("    "@, c.rationale) + seq![
        "    resolve: agent memory correct "@ + c.old_id + " --with "@ + c.new_id
            + "   |   dismiss: agent memory conflicts --dismiss "@ + n,
    ]
}

/// Some conflicts as lines.
pub open spec fn conflicts_lines(s: StoreV, at: Seq<int>, conf: Seq<Seq<char>>) -> Seq<Seq<char>>
    decreases at.len(),
{
    if at.len() == 0 {
        Seq::empty()
    } else {
        conflicts_lines(s, at.drop_last(), conf) + conflict_lines(
            s,
            s.conflicts[at.last()],
            conf[at.last()],
        )
    }
}

/// What the conflict queue prints, given how the confidences are and are shown.
pub open spec fn queue_printed(
    s: StoreV,
    all: bool,
    json: bool,
    conf: Seq<JsonV>,
    conf_shown: Seq<Seq<char>>,
) -> PrintedV {
    let at = conflicts_shown(s, all);
    if json {
        PrintedV::Json(
            JsonV::Object(
                Map::empty().insert(
                    "conflicts"@,
                    JsonV::Array(at.map_values(|i: int| conflict_json(s, s.conflicts[i], conf[i]))),
                ),
            ),
        )
    } else if at.len() == 0 {
        PrintedV::Lines(
            seq![
                "no "@ + (if all {
                    "recorded"@
                } else {
                    "open"@
                }) + " conflicts"@,
            ],
        )
    } else {
        PrintedV::Lines(
            seq!["## Suspected conflicts ("@ + decimal(at.len()) + ")\n"@] + conflicts_lines(
                s,
                at,
                conf_shown,
            ),
        )
    }
}

impl Store {
    /// The positions of the listed conflicts, the newest first.
    fn select_conflicts(&self, all: bool) -> (r: Vec<usize>)
        ensures
            r@.map_values(|i: usize| i as int) == conflicts_shown(self@, all),
            forall|i: int|
                0 <= i < r@.len() ==> (#[trigger] r@[i]) < self.conflicts@.len() && listed_conflict(
                    self@,
                    self@.conflicts[r@[i] as int],
                    all,
                ),
    {
        let ghost cs = self@.conflicts;
        let mut found: Vec<usize> = Vec::new();
        let mut keys: Vec<(i64, i64)> = Vec::new();
        let mut i: usize = 0;
        let ghost mut at: Seq<int> = Seq::empty();
        assert(at =~= conflict_positions(self@, all, 0));
        while i < self.conflicts.len()
            invariant
                cs == self@.conflicts,
                i <= self.conflicts@.len(),
                at == conflict_positions(self@, all, i as nat),
                found@.len() == at.len(),
                keys@.len() == at.len(),
                forall|k: int| 0 <= k < at.len() ==> found@[k] == #[trigger] at[k],
                forall|k: int|
                    0 <= k < at.len() ==> 0 <= #[trigger] at[k] < i && listed_conflict(
                        self@,
                        cs[at[k]],
                        all,
                    ),
                forall|k: int|
                    0 <= k < at.len() ==> #[trigger] keys@[k] == (cs[at[k]].created_at, 0i64),
            decreases self.conflicts@.len() - i,
        {
            let c = &self.conflicts[i];
            assert(cs[i as int] == c@);
            if (all || same(c.status.as_str(), "open")) && self.get(c.old_id.as_str()).is_some()
                && self.get(c.new_id.as_str()).is_some() {
                found.push(i);
                keys.push((c.created_at, 0));
                proof {
                    at = at.push(i as int);
                }
            }
            i = i + 1;
        }
        assert(keys@ =~= conflict_keys(cs, at));
        let order = order_desc(&keys);
        let mut out: Vec<usize> = Vec::new();
        let mut k: usize = 0;
        while k < order.len()
            invariant
                k <= order@.len(),
                is_order(keys@, order@),
                keys@.len() == found@.len(),
                found@.len() == at.len(),
                cs == self@.conflicts,
                forall|x: int| 0 <= x < at.len() ==> found@[x] == #[trigger] at[x],
                forall|x: int|
                    0 <= x < at.len() ==> 0 <= #[trigger] at[x] < self.conflicts@.len()
                        && listed_conflict(self@, cs[at[x]], all),
                out@.len() == k,
                forall|x: int| 0 <= x < k ==> #[trigger] out@[x] == at[order@[x] as int],
                forall|x: int|
                    0 <= x < k ==> (#[trigger] out@[x]) < self.conflicts@.len() && listed_conflict(
                        self@,
                        cs[out@[x] as int],
                        all,
                    ),
            decreases order@.len() - k,
        {
            let p = order[k];
            assert(p < keys@.len());
            assert(found@[p as int] == at[p as int]);
            out.push(found[p]);
            k = k + 1;
        }
        assert(out@.map_values(|i: usize| i as int) =~= conflicts_shown(self@, all));
        out
    }

    /// Writes a conflict as JSON.
    fn conflict_to_json(&self, c: &Conflict, conf: &Json) -> (r: Json)
        requires
            self@.get(c@.old_id) is Some,
            self@.get(c@.new_id) is Some,
        ensures
            r.tree() == conflict_json(self@, c@, conf.tree()),
    {
        let mut o = JsonObject::new();
        o.insert_int("id", c.id);
        o.insert_str("old_id", c.old_id.as_str());
        if let Some(m) = self.get(c.old_id.as_str()) {
            o.insert_str("old_name", m.name.as_str());
        }
        o.insert_str("new_id", c.new_id.as_str());
        if let Some(m) = self.get(c.new_id.as_str()) {
            o.insert_str("new_name", m.name.as_str());
        }
        o.insert_str("relation", c.relation.as_str());
        o.insert("confidence", conf.copy());
        o.insert_str("rationale", c.rationale.as_str());
        o.insert_str("status", c.status.as_str());
        o.insert_int("created_at", c.created_at);
        o.done()
    }

    /// Writes a conflict as lines.
    fn conflict_to_lines(&self, c: &Conflict, conf: &str) -> (r: Vec<String>)
        requires
            self@.get(c@.old_id) is Some,
            self@.get(c@.new_id) is Some,
        ensures
            texts(r@) == conflict_lines(self@, c@, conf@),
    {
        let n = i64_text(c.id);
        let new_name = match self.get(c.new_id.as_str()) {
            Some(m) => m.name.clone(),
            None => String::new(),
        };
        let old_name = match self.get(c.old_id.as_str()) {
            Some(m) => m.name.clone(),
            None => String::new(),
        };
        let mut l = "#".to_string();
        l.append(n.as_str());
        l.append(" [");
        l.append(c.status.as_str());
        l.append("] ");
        l.append(c.new_id.as_str());
        l.append(" (");
        l.append(new_name.as_str());
        l.append(") --");
        l.append(c.relation.as_str());
        l.append(" ");
        l.append(conf);
        l.append("--> ");
        l.append(c.old_id.as_str());
        l.append(" (");
        l.append(old_name.as_str());
        l.append(")  [");
        l.append(fmt_ts(c.created_at).as_str());
        l.append("]");
        let ghost first = l@;
        let mut out: Vec<String> = Vec::new();
        out.push(l);
        assert(texts(out@) =~= seq![first]);
        say_nonempty(&mut out, "    ", c.rationale.as_str());
        let ghost second = texts(out@);
        let mut t = "    resolve: agent memory correct ".to_string();
        t.append(c.old_id.as_str());
        t.append(" --with ");
        t.append(c.new_id.as_str());
        t.append("   |   dismiss: agent memory conflicts --dismiss ");
        t.append(n.as_str());
        say(&mut out, t);
        assert(texts(out@) =~= second + seq![t@]);
        out
    }

    /// Lists the conflict queue; the confidences, and how they are shown, stand
    /// by position.
    pub fn list_conflicts(&self, args: &ConflictsArgs, conf: &Vec<Json>, conf_shown: &Vec<String>) -> (r:
        Printed)
        requires
            conf@.len() == self.conflicts@.len(),
            conf_shown@.len() == self.conflicts@.len(),
        ensures
            r@ == queue_printed(
                self@,
                args.all,
                args.json,
                trees(conf@),
                texts(conf_shown@),
            ),
    {
        let at = self.select_conflicts(args.all);
        let ghost shown = conflicts_shown(self@, args.all);
        assert(at@.map_values(|i: usize| i as int).len() == at@.len());
        if args.json {
            let mut items: Vec<Json> = Vec::new();
            let mut i: usize = 0;
            while i < at.len()
                invariant
                    i <= at@.len(),
                    items@.len() == i,
                    conf@.len() == self.conflicts@.len(),
                    shown == at@.map_values(|i: usize| i as int),
                    forall|x: int|
                        0 <= x < at@.len() ==> (#[trigger] at@[x]) < self.conflicts@.len()
                            && listed_conflict(self@, self@.conflicts[at@[x] as int], args.all),
                    forall|k: int|
                        0 <= k < i ==> (#[trigger] items@[k]).tree() == conflict_json(
                            self@,
                            self@.conflicts[shown[k]],
                            trees(conf@)[shown[k]],
                        ),
                decreases at@.len() - i,
            {
                let p = at[i];
                assert(shown[i as int] == p);
                assert(self@.conflicts[p as int] == self.conflicts@[p as int]@);
                assert(trees(conf@)[p as int] == conf@[p as int].tree());
                items.push(self.conflict_to_json(&self.conflicts[p], &conf[p]));
                i = i + 1;
            }
            assert(trees(items@) =~= shown.map_values(
                |i: int| conflict_json(self@, self@.conflicts[i], trees(conf@)[i]),
            ));
            let mut o = JsonObject::new();
            o.insert("conflicts", Json::Array(items));
            return Printed::Json(o.done());
        }
        let mut out: Vec<String> = Vec::new();
        if at.len() == 0 {
            let mut l = "no ".to_string();
            l.append(
                if args.all {
                    "recorded"
                } else {
                    "open"
                },
            );
            l.append(" conflicts");
            let ghost text = l@;
            out.push(l);
            assert(texts(out@) =~= seq![text]);
            return Printed::Lines(out);
        }
        let mut l = "## Suspected conflicts (".to_string();
        l.append(usize_text(at.len()).as_str());
        l.append(")\n");
        let ghost first = l@;
        out.push(l);
        let mut i: usize = 0;
        assert(texts(out@) =~= seq![first] + conflicts_lines(
            self@,
            shown.take(0),
            texts(conf_shown@),
        ));
        while i < at.len()
            invariant
                i <= at@.len(),
                conf_shown@.len() == self.conflicts@.len(),
                shown == at@.map_values(|i: usize| i as int),
                forall|x: int|
                    0 <= x < at@.len() ==> (#[trigger] at@[x]) < self.conflicts@.len()
                        && listed_conflict(self@, self@.conflicts[at@[x] as int], args.all),
                texts(out@) == seq![first] + conflicts_lines(
                    self@,
                    shown.take(i as int),
                    texts(conf_shown@),
                ),
            decreases at@.len() - i,
        {
            let p = at[i];
            assert(shown.take(i as int + 1).drop_last() =~= shown.take(i as int));
            assert(shown.take(i as int + 1).last() == p);
            assert(self@.conflicts[p as int] == self.conflicts@[p as int]@);
            assert(texts(conf_shown@)[p as int] == conf_shown@[p as int]@);
            let ghost before = conflicts_lines(self@, shown.take(i as int), texts(conf_shown@));
            let block = self.conflict_to_lines(&self.conflicts[p], conf_shown[p].as_str());
            let ghost b = texts(block@);
            say_all(&mut out, block);
            assert(seq![first] + before + b =~= seq![first] + (before + b));
            i = i + 1;
        }
        assert(shown.take(i as int) =~= shown);
        Printed::Lines(out)
    }
}

} // verus!
