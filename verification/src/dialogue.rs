//! Talking to a dialogue server: endpoint, requests, and what a watch prints.
use crate::json::{
    array_field, field, int_number, json_parsed, number_int, str_field, trees, unsigned_number,
    Json, JsonObject, JsonV,
};
use crate::settings::{either, Settings};
use crate::text::{clip, clipped, lemma_texts_push, replace_char, replaced, texts};
use vstd::prelude::*;

verus! {

/// The endpoint where none is configured.
pub const DEFAULT_URL: &'static str = "http://localhost:7740/mcp";

/// `agent dialogue`: talk to a dialogue server.
#[derive(Debug)]
pub struct DialogueCmd {
    pub action: DialogueAction,
}

/// What to do there.
#[derive(Debug)]
pub enum DialogueAction {
    /// Wait for new messages and print one line each.
    Watch(Watch),
    /// Ask once for messages.
    Poll(Poll),
    /// Send a message.
    Say(Say),
    /// List who is there.
    Peers(Peers),
}

/// Waiting for new messages.
#[derive(Debug)]
pub struct Watch {
    pub id: String,
    pub since: i64,
    pub timeout_ms: u64,
    pub url: Option<String>,
}

/// Asking once for messages.
#[derive(Debug)]
pub struct Poll {
    pub id: String,
    pub since: i64,
    pub timeout_ms: u64,
    pub url: Option<String>,
}

/// Sending a message.
#[derive(Debug)]
pub struct Say {
    pub from: String,
    pub to: String,
    pub content: String,
    pub thread: Option<String>,
    pub url: Option<String>,
}

/// Listing who is there.
#[derive(Debug)]
pub struct Peers {
    pub role: Option<String>,
    pub url: Option<String>,
}

/// The endpoint: the flag's, else the setting, else the local one.
pub fn endpoint(url: &Option<String>, s: &Settings) -> (r: String)
    ensures
        r@ == (match either(
            crate::text::opt_text(*url),
            s@.setting("dialogue"@, "url"@, "AGENT_DIALOGUE_URL"@),
        ) {
            Some(u) => u,
            None => "http://localhost:7740/mcp"@,
        }),
{
    match url {
        Some(u) => u.clone(),
        None => match s.resolve_setting("dialogue", "url", "AGENT_DIALOGUE_URL") {
            Some(u) => u,
            None => "http://localhost:7740/mcp".to_string(),
        },
    }
}

/// The arguments of a poll.
pub fn poll_arguments(id: &str, since: i64, timeout_ms: u64) -> (r: Json)
    ensures
        r.tree() == JsonV::Object(
            Map::empty().insert("to"@, JsonV::Str(id@)).insert(
                "since"@,
                JsonV::Number(int_number(since)),
            ).insert("timeout_ms"@, JsonV::Number(unsigned_number(timeout_ms))),
        ),
{
    let mut o = JsonObject::new();
    o.insert_str("to", id);
    o.insert_int("since", since);
    o.insert_unsigned("timeout_ms", timeout_ms);
    o.done()
}

/// How long to wait for the answer to a poll: ten seconds beyond the server's
/// own wait.
pub fn poll_wait_ms(timeout_ms: u64) -> (r: u64)
    requires
        timeout_ms + 10_000 <= u64::MAX,
    ensures
        r == timeout_ms + 10_000,
{
    timeout_ms + 10_000
}

/// The arguments of a message.
pub fn say_arguments(m: &Say) -> (r: Json)
    ensures
        r.tree() == ({
            let o = Map::empty().insert("from"@, JsonV::Str(m.from@)).insert(
                "to"@,
                JsonV::Str(m.to@),
            ).insert("content"@, JsonV::Str(m.content@));
            match m.thread {
                Some(t) => JsonV::Object(o.insert("session_thread"@, JsonV::Str(t@))),
                None => JsonV::Object(o),
            }
        }),
{
    let mut o = JsonObject::new();
    o.insert_str("from", m.from.as_str());
    o.insert_str("to", m.to.as_str());
    o.insert_str("content", m.content.as_str());
    if let Some(t) = &m.thread {
        o.insert_str("session_thread", t.as_str());
    }
    o.done()
}

/// The arguments of a listing.
pub fn peers_arguments(p: &Peers) -> (r: Json)
    ensures
        r.tree() == (match p.role {
            Some(role) => JsonV::Object(Map::empty().insert("role"@, JsonV::Str(role@))),
            None => JsonV::Object(Map::empty()),
        }),
{
    let mut o = JsonObject::new();
    if let Some(role) = &p.role {
        o.insert_str("role", role.as_str());
    }
    o.done()
}

/// The line for a message: who sent it and the first 180 characters on one
/// line.
pub open spec fn message_line(m: JsonV) -> Seq<char> {
    let from = match str_field(m, "from"@) {
        Some(s) => s,
        None => "?"@,
    };
    let content = match str_field(m, "content"@) {
        Some(s) => s,
        None => ""@,
    };
    "DIALOGUE "@ + from + ": "@ + replaced(clipped(content, 180), '\n', " "@)
}

/// The lines for some messages.
pub open spec fn message_lines(ms: Seq<JsonV>) -> Seq<Seq<char>> {
    ms.map_values(|m: JsonV| message_line(m))
}

/// The time of a message, where it has one.
pub open spec fn message_time(m: JsonV) -> Option<i64> {
    match field(m, "ts"@) {
        Some(JsonV::Number(n)) => number_int(n),
        _ => None,
    }
}

/// The latest time among `since` and the messages.
pub open spec fn latest_time(ms: Seq<JsonV>, since: i64) -> i64
    decreases ms.len(),
{
    if ms.len() == 0 {
        since
    } else {
        let before = latest_time(ms.drop_last(), since);
        match message_time(ms.last()) {
            Some(ts) if ts > before => ts,
            _ => before,
        }
    }
}

/// The messages in an answer, given what it holds; none where it is not of the
/// expected shape.
pub open spec fn answer_messages(t: Option<JsonV>) -> Seq<JsonV> {
    match t {
        Some(v) => match array_field(v, "messages"@) {
            Some(a) => a,
            None => Seq::empty(),
        },
        None => Seq::empty(),
    }
}

/// The line of one message.
fn line_of(m: &Json) -> (r: String)
    ensures
        r@ == message_line(m.tree()),
{
    let from = match m.str_at("from") {
        Some(s) => s,
        None => "?",
    };
    let content = match m.str_at("content") {
        Some(s) => s,
        None => "",
    };
    let mut l = "DIALOGUE ".to_string();
    l.append(from);
    l.append(": ");
    l.append(replace_char(clip(content, 180).as_str(), '\n', " ").as_str());
    l
}

/// What a watch prints for the messages of an answer, and the time from which
/// it goes on.
pub fn watch_messages(parsed: &Json, since: i64) -> (r: (Vec<String>, i64))
    ensures
        texts(r.0@) == message_lines(answer_messages(Some(parsed.tree()))),
        r.1 == latest_time(answer_messages(Some(parsed.tree())), since),
{
    let mut out: Vec<String> = Vec::new();
    let mut latest: i64 = since;
    if let Some(ms) = parsed.array_at("messages") {
        let ghost all = trees(ms@);
        let mut i: usize = 0;
        assert(texts(out@) =~= message_lines(all.take(0)));
        assert(all.take(0).len() == 0);
        while i < ms.len()
            invariant
                all == trees(ms@),
                i <= ms@.len(),
                texts(out@) == message_lines(all.take(i as int)),
                latest == latest_time(all.take(i as int), since),
            decreases ms@.len() - i,
        {
            let m = &ms[i];
            assert(all.take(i as int + 1).drop_last() =~= all.take(i as int));
            assert(all.take(i as int + 1).last() == m.tree());
            let l = line_of(m);
            proof {
                lemma_texts_push(out@, l);
            }
            out.push(l);
            assert(message_lines(all.take(i as int + 1)) =~= message_lines(all.take(i as int)).push(
                message_line(m.tree()),
            ));
            if let Some(ts) = m.get("ts") {
                if let Some(t) = ts.as_i64() {
                    if t > latest {
                        latest = t;
                    }
                }
            }
            i = i + 1;
        }
        assert(all.take(i as int) =~= all);
    } else {
        assert(texts(out@) =~= message_lines(Seq::empty()));
    }
    (out, latest)
}

/// One step of a watch: what is printed for an answer and the time from which
/// the next poll asks. An answer that is no JSON changes nothing.
pub fn watch_step(text: &str, since: i64) -> (r: (Vec<String>, i64))
    ensures
        texts(r.0@) == message_lines(answer_messages(json_parsed(text@))),
        r.1 == latest_time(answer_messages(json_parsed(text@)), since),
{
    match Json::parse(text) {
        Some(parsed) => watch_messages(&parsed, since),
        None => {
            let out: Vec<String> = Vec::new();
            assert(texts(out@) =~= message_lines(Seq::empty()));
            (out, since)
        },
    }
}

/// A watch never goes back in time, and moves past every message it printed.
pub proof fn law_watch_moves_forward(ms: Seq<JsonV>, since: i64)
    ensures
        latest_time(ms, since) >= since,
        forall|i: int|
            0 <= i < ms.len() ==> match message_time(#[trigger] ms[i]) {
                Some(ts) => ts <= latest_time(ms, since),
                None => true,
            },
    decreases ms.len(),
{
    if ms.len() > 0 {
        let init = ms.drop_last();
        law_watch_moves_forward(init, since);
        assert forall|i: int| 0 <= i < ms.len() implies match message_time(#[trigger] ms[i]) {
            Some(ts) => ts <= latest_time(ms, since),
            None => true,
        } by {
            if i < init.len() {
                assert(init[i] == ms[i]);
            }
        }
    }
}

} // verus!
