//! The messages of a tool-calling session and how answers are read.
use crate::json::{
    array_field, field, int_number, json_parsed, json_text, str_field, trees, Json, JsonObject,
    JsonV,
};
use crate::text::{
    after_prefix, has_prefix, lines, opt_text, skip_white, split_lines, starts, strip_prefix, texts,
    trim, trim_start, trimmed,
};
use vstd::prelude::*;

verus! {

/// The answer formats that a client accepts.
pub const ACCEPT: &'static str = "application/json, text/event-stream";

/// The first message of a session.
pub fn initialize_request(version: &str) -> (r: Json)
    ensures
        r.tree() == JsonV::Object(
            Map::empty().insert("jsonrpc"@, JsonV::Str("2.0"@)).insert(
                "id"@,
                JsonV::Number(int_number(1)),
            ).insert("method"@, JsonV::Str("initialize"@)).insert(
                "params"@,
                JsonV::Object(
                    Map::empty().insert("protocolVersion"@, JsonV::Str("2025-03-26"@)).insert(
                        "capabilities"@,
                        JsonV::Object(Map::empty()),
                    ).insert(
                        "clientInfo"@,
                        JsonV::Object(
                            Map::empty().insert("name"@, JsonV::Str("agent-cli"@)).insert(
                                "version"@,
                                JsonV::Str(version@),
                            ),
                        ),
                    ),
                ),
            ),
        ),
{
    let mut client = JsonObject::new();
    client.insert_str("name", "agent-cli");
    client.insert_str("version", version);
    let mut params = JsonObject::new();
    params.insert_str("protocolVersion", "2025-03-26");
    params.insert("capabilities", JsonObject::new().done());
    params.insert("clientInfo", client.done());
    let mut o = JsonObject::new();
    o.insert_str("jsonrpc", "2.0");
    o.insert_int("id", 1);
    o.insert_str("method", "initialize");
    o.insert("params", params.done());
    o.done()
}

/// The notification that follows the first answer.
pub fn initialized_notification() -> (r: Json)
    ensures
        r.tree() == JsonV::Object(
            Map::empty().insert("jsonrpc"@, JsonV::Str("2.0"@)).insert(
                "method"@,
                JsonV::Str("notifications/initialized"@),
            ),
        ),
{
    let mut o = JsonObject::new();
    o.insert_str("jsonrpc", "2.0");
    o.insert_str("method", "notifications/initialized");
    o.done()
}

/// The call of a tool.
pub fn call_request(tool: &str, arguments: Json) -> (r: Json)
    ensures
        r.tree() == JsonV::Object(
            Map::empty().insert("jsonrpc"@, JsonV::Str("2.0"@)).insert(
                "id"@,
                JsonV::Number(int_number(2)),
            ).insert("method"@, JsonV::Str("tools/call"@)).insert(
                "params"@,
                JsonV::Object(
                    Map::empty().insert("name"@, JsonV::Str(tool@)).insert(
                        "arguments"@,
                        arguments.tree(),
                    ),
                ),
            ),
        ),
{
    let mut params = JsonObject::new();
    params.insert_str("name", tool);
    params.insert("arguments", arguments);
    let mut o = JsonObject::new();
    o.insert_str("jsonrpc", "2.0");
    o.insert_int("id", 2);
    o.insert_str("method", "tools/call");
    o.insert("params", params.done());
    o.done()
}

/// The content of the last `data:` line.
pub open spec fn last_data(ls: Seq<Seq<char>>) -> Option<Seq<char>>
    decreases ls.len(),
{
    if ls.len() == 0 {
        None
    } else {
        match after_prefix(ls.last(), "data:"@) {
            Some(d) => Some(trimmed(d)),
            None => last_data(ls.drop_last()),
        }
    }
}

/// The message in a body: the last event's data, or the whole of a plain JSON
/// object.
pub open spec fn payload_of(body: Seq<char>) -> Option<Seq<char>> {
    match last_data(lines(body)) {
        Some(d) => Some(d),
        None => if starts(skip_white(body), "{"@) {
            Some(trimmed(body))
        } else {
            None
        },
    }
}

/// Finds the message in a body.
pub fn payload(body: &str) -> (r: Option<String>)
    ensures
        opt_text(r) == payload_of(body@),
{
    let ls = split_lines(body);
    let ghost all = texts(ls@);
    let mut n: usize = ls.len();
    assert(all.take(n as int) =~= all);
    while n > 0
        invariant
            all == texts(ls@),
            all == lines(body@),
            n <= ls@.len(),
            last_data(all) == last_data(all.take(n as int)),
        decreases n,
    {
        assert(all.take(n as int).last() == ls@[n - 1]@);
        assert(all.take(n as int).drop_last() =~= all.take(n - 1));
        if let Some(d) = strip_prefix(ls[n - 1].as_str(), "data:") {
            let t = trim(d.as_str());
            return Some(t);
        }
        n = n - 1;
    }
    if has_prefix(trim_start(body).as_str(), "{") {
        Some(trim(body))
    } else {
        None
    }
}

/// Why an answer gives no result.
#[derive(Debug)]
pub enum AnswerError {
    /// The body holds no message.
    NoPayload,
    /// The message is no JSON.
    NotJson,
    /// The server reports an error.
    Remote(String),
    /// The message holds no result.
    NoResult,
}

/// What such an error is.
pub enum AnswerErrorV {
    NoPayload,
    NotJson,
    Remote(Seq<char>),
    NoResult,
}

impl View for AnswerError {
    type V = AnswerErrorV;

    open spec fn view(&self) -> AnswerErrorV {
        match self {
            AnswerError::NoPayload => AnswerErrorV::NoPayload,
            AnswerError::NotJson => AnswerErrorV::NotJson,
            AnswerError::Remote(e) => AnswerErrorV::Remote(e@),
            AnswerError::NoResult => AnswerErrorV::NoResult,
        }
    }
}

/// The result in a message, given what it holds.
pub open spec fn envelope_result(env: JsonV) -> Result<JsonV, AnswerErrorV> {
    match field(env, "error"@) {
        Some(e) => Err(AnswerErrorV::Remote("remote error: "@ + json_text(e))),
        None => match field(env, "result"@) {
            Some(r) => Ok(r),
            None => Err(AnswerErrorV::NoResult),
        },
    }
}

/// The result in a body.
pub open spec fn answer_result(body: Seq<char>) -> Result<JsonV, AnswerErrorV> {
    match payload_of(body) {
        None => Err(AnswerErrorV::NoPayload),
        Some(p) => match json_parsed(p) {
            None => Err(AnswerErrorV::NotJson),
            Some(env) => envelope_result(env),
        },
    }
}

/// Takes the result out of a message.
pub fn read_envelope(env: &Json) -> (r: Result<Json, AnswerError>)
    ensures
        match r {
            Ok(j) => envelope_result(env.tree()) == Ok::<JsonV, AnswerErrorV>(j.tree()),
            Err(e) => envelope_result(env.tree()) == Err::<JsonV, AnswerErrorV>(e@),
        },
{
    if let Some(e) = env.get("error") {
        let mut m = "remote error: ".to_string();
        m.append(e.text().as_str());
        return Err(AnswerError::Remote(m));
    }
    match env.get("result") {
        Some(v) => Ok(v.copy()),
        None => Err(AnswerError::NoResult),
    }
}

/// Takes the result out of a body.
pub fn read_sse_result(body: &str) -> (r: Result<Json, AnswerError>)
    ensures
        match r {
            Ok(j) => answer_result(body@) == Ok::<JsonV, AnswerErrorV>(j.tree()),
            Err(e) => answer_result(body@) == Err::<JsonV, AnswerErrorV>(e@),
        },
{
    match payload(body) {
        None => Err(AnswerError::NoPayload),
        Some(p) => match Json::parse(p.as_str()) {
            None => Err(AnswerError::NotJson),
            Some(env) => read_envelope(&env),
        },
    }
}

/// The text of the first of some content blocks that has one, or empty.
pub open spec fn first_text(blocks: Seq<JsonV>) -> Seq<char>
    decreases blocks.len(),
{
    if blocks.len() == 0 {
        Seq::empty()
    } else {
        match str_field(blocks[0], "text"@) {
            Some(s) => s,
            None => first_text(blocks.skip(1)),
        }
    }
}

/// The text of a tool's result: that of its first text block, or empty.
pub open spec fn result_text(t: JsonV) -> Seq<char> {
    match array_field(t, "content"@) {
        Some(a) => first_text(a),
        None => Seq::empty(),
    }
}

/// Finds the first text among content blocks.
fn find_text(blocks: &Vec<Json>) -> (r: String)
    ensures
        r@ == first_text(trees(blocks@)),
{
    let ghost all = trees(blocks@);
    assert(all.skip(0) =~= all);
    let mut i: usize = 0;
    while i < blocks.len()
        invariant
            i <= blocks.len(),
            all == trees(blocks@),
            first_text(all) == first_text(all.skip(i as int)),
        decreases blocks.len() - i,
    {
        assert(all.skip(i as int)[0] == blocks@[i as int].tree());
        if let Some(s) = blocks[i].str_at("text") {
            return s.to_owned();
        }
        assert(all.skip(i as int).skip(1) =~= all.skip(i + 1));
        i = i + 1;
    }
    let none = String::new();
    assert(none@ =~= first_text(all.skip(i as int)));
    none
}

/// The text of a tool's result, as an error where the tool reports one.
pub fn tool_text(result: &Json) -> (r: Result<String, String>)
    ensures
        match r {
            Ok(s) => s@ == result_text(result.tree()) && field(result.tree(), "isError"@) != Some(
                JsonV::Bool(true),
            ),
            Err(s) => s@ == result_text(result.tree()) && field(result.tree(), "isError"@) == Some(
                JsonV::Bool(true),
            ),
        },
{
    let text = match result.array_at("content") {
        Some(a) => find_text(a),
        None => String::new(),
    };
    assert(text@ =~= result_text(result.tree()));
    if result.is_true_at("isError") {
        Err(text)
    } else {
        Ok(text)
    }
}

} // verus!
