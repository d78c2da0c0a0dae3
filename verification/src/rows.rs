//! One memory: its stored fields, what they are, and its JSON snapshot.
use crate::json::{int_number, json_text, Json, JsonObject, JsonV};
use crate::text::{copy_opt, i64_text, int_text, opt_text};
use vstd::prelude::*;

verus! {

/// One stored memory.
#[derive(Debug)]
pub struct Memory {
    pub id: String,
    pub type_: String,
    pub name: String,
    pub description: String,
    pub content: String,
    pub source: String,
    pub tags: String,
    pub cwd: String,
    pub scope: String,
    pub is_active: bool,
    pub lifecycle: String,
    pub created_at: i64,
    pub updated_at: i64,
    pub archived_at: Option<i64>,
    pub trashed_at: Option<i64>,
    pub purge_after: Option<i64>,
    pub superseded_by: Option<String>,
    pub supersede_reason: Option<String>,
    pub verified_at: Option<i64>,
    pub source_ref: Option<String>,
    pub author: String,
    pub valid_from: Option<i64>,
    pub valid_to: Option<i64>,
}

/// What a memory is.
pub struct MemoryV {
    pub id: Seq<char>,
    pub type_: Seq<char>,
    pub name: Seq<char>,
    pub description: Seq<char>,
    pub content: Seq<char>,
    pub source: Seq<char>,
    pub tags: Seq<char>,
    pub cwd: Seq<char>,
    pub scope: Seq<char>,
    pub is_active: bool,
    pub lifecycle: Seq<char>,
    pub created_at: i64,
    pub updated_at: i64,
    pub archived_at: Option<i64>,
    pub trashed_at: Option<i64>,
    pub purge_after: Option<i64>,
    pub superseded_by: Option<Seq<char>>,
    pub supersede_reason: Option<Seq<char>>,
    pub verified_at: Option<i64>,
    pub source_ref: Option<Seq<char>>,
    pub author: Seq<char>,
    pub valid_from: Option<i64>,
    pub valid_to: Option<i64>,
}

impl View for Memory {
    type V = MemoryV;

    open spec fn view(&self) -> MemoryV {
        MemoryV {
            id: self.id@,
            type_: self.type_@,
            name: self.name@,
            description: self.description@,
            content: self.content@,
            source: self.source@,
            tags: self.tags@,
            cwd: self.cwd@,
            scope: self.scope@,
            is_active: self.is_active,
            lifecycle: self.lifecycle@,
            created_at: self.created_at,
            updated_at: self.updated_at,
            archived_at: self.archived_at,
            trashed_at: self.trashed_at,
            purge_after: self.purge_after,
            superseded_by: opt_text(self.superseded_by),
            supersede_reason: opt_text(self.supersede_reason),
            verified_at: self.verified_at,
            source_ref: opt_text(self.source_ref),
            author: self.author@,
            valid_from: self.valid_from,
            valid_to: self.valid_to,
        }
    }
}

/// What a list of memories is.
pub open spec fn memories(v: Seq<Memory>) -> Seq<MemoryV> {
    v.map_values(|m: Memory| m@)
}

impl MemoryV {
    /// Whether the memory is in force: active and neither archived, trashed,
    /// superseded nor retracted.
    pub open spec fn in_force(self) -> bool {
        self.is_active && self.lifecycle == "active"@
    }
}

/// An optional time as JSON text.
pub open spec fn time_json(t: Option<i64>) -> Seq<char> {
    match t {
        Some(i) => int_text(i as int),
        None => "null"@,
    }
}

/// A text as JSON text.
pub open spec fn str_json(s: Seq<char>) -> Seq<char> {
    json_text(JsonV::Str(s))
}

/// An optional text as JSON text.
pub open spec fn opt_str_json(o: Option<Seq<char>>) -> Seq<char> {
    match o {
        Some(s) => str_json(s),
        None => "null"@,
    }
}

/// A truth value as a number.
pub open spec fn flag_json(b: bool) -> Seq<char> {
    if b {
        "1"@
    } else {
        "0"@
    }
}

/// The snapshot of a memory that the event log keeps: a JSON object with its
/// fields in a fixed order.
pub open spec fn snapshot(m: MemoryV) -> Seq<char> {
    "{\"id\":"@ + str_json(m.id)
        + ",\"type\":"@ + str_json(m.type_)
        + ",\"name\":"@ + str_json(m.name)
        + ",\"description\":"@ + str_json(m.description)
        + ",\"content\":"@ + str_json(m.content)
        + ",\"source\":"@ + str_json(m.source)
        + ",\"tags\":"@ + str_json(m.tags)
        + ",\"cwd\":"@ + str_json(m.cwd)
        + ",\"is_active\":"@ + flag_json(m.is_active)
        + ",\"lifecycle\":"@ + str_json(m.lifecycle)
        + ",\"created_at\":"@ + int_text(m.created_at as int)
        + ",\"updated_at\":"@ + int_text(m.updated_at as int)
        + ",\"archived_at\":"@ + time_json(m.archived_at)
        + ",\"trashed_at\":"@ + time_json(m.trashed_at)
        + ",\"purge_after\":"@ + time_json(m.purge_after)
        + ",\"superseded_by\":"@ + opt_str_json(m.superseded_by)
        + ",\"supersede_reason\":"@ + opt_str_json(m.supersede_reason)
        + ",\"verified_at\":"@ + time_json(m.verified_at)
        + ",\"source_ref\":"@ + opt_str_json(m.source_ref)
        + ",\"author\":"@ + str_json(m.author)
        + "}"@
}

/// Writes a text as JSON.
pub fn write_str(s: &str) -> (r: String)
    ensures
        r@ == str_json(s@),
{
    Json::string(s).text()
}

/// Writes an optional text as JSON.
fn write_opt_str(o: &Option<String>) -> (r: String)
    ensures
        r@ == opt_str_json(opt_text(*o)),
{
    match o {
        Some(s) => write_str(s.as_str()),
        None => "null".to_string(),
    }
}

/// Writes an optional time as JSON.
fn write_time(t: Option<i64>) -> (r: String)
    ensures
        r@ == time_json(t),
{
    match t {
        Some(i) => i64_text(i),
        None => "null".to_string(),
    }
}

/// Writes a truth value as a number.
fn write_flag(b: bool) -> (r: String)
    ensures
        r@ == flag_json(b),
{
    if b {
        "1".to_string()
    } else {
        "0".to_string()
    }
}

impl Memory {
    /// A copy of the memory.
    pub fn copy(&self) -> (r: Memory)
        ensures
            r@ == self@,
            r == *self,
    {
        Memory {
            id: self.id.clone(),
            type_: self.type_.clone(),
            name: self.name.clone(),
            description: self.description.clone(),
            content: self.content.clone(),
            source: self.source.clone(),
            tags: self.tags.clone(),
            cwd: self.cwd.clone(),
            scope: self.scope.clone(),
            is_active: self.is_active,
            lifecycle: self.lifecycle.clone(),
            created_at: self.created_at,
            updated_at: self.updated_at,
            archived_at: self.archived_at,
            trashed_at: self.trashed_at,
            purge_after: self.purge_after,
            superseded_by: copy_opt(&self.superseded_by),
            supersede_reason: copy_opt(&self.supersede_reason),
            verified_at: self.verified_at,
            source_ref: copy_opt(&self.source_ref),
            author: self.author.clone(),
            valid_from: self.valid_from,
            valid_to: self.valid_to,
        }
    }

    /// Whether the memory is in force.
    pub fn is_in_force(&self) -> (r: bool)
        ensures
            r == self@.in_force(),
    {
        self.is_active && crate::text::same(self.lifecycle.as_str(), "active")
    }

    /// The snapshot that the event log keeps.
    pub fn snapshot_text(&self) -> (r: String)
        ensures
            r@ == snapshot(self@),
    {
        let mut s = "{\"id\":".to_string();
        s.append(write_str(self.id.as_str()).as_str());
        s.append(",\"type\":");
        s.append(write_str(self.type_.as_str()).as_str());
        s.append(",\"name\":");
        s.append(write_str(self.name.as_str()).as_str());
        s.append(",\"description\":");
        s.append(write_str(self.description.as_str()).as_str());
        s.append(",\"content\":");
        s.append(write_str(self.content.as_str()).as_str());
        s.append(",\"source\":");
        s.append(write_str(self.source.as_str()).as_str());
        s.append(",\"tags\":");
        s.append(write_str(self.tags.as_str()).as_str());
        s.append(",\"cwd\":");
        s.append(write_str(self.cwd.as_str()).as_str());
        s.append(",\"is_active\":");
        s.append(write_flag(self.is_active).as_str());
        s.append(",\"lifecycle\":");
        s.append(write_str(self.lifecycle.as_str()).as_str());
        s.append(",\"created_at\":");
        s.append(i64_text(self.created_at).as_str());
        s.append(",\"updated_at\":");
        s.append(i64_text(self.updated_at).as_str());
        s.append(",\"archived_at\":");
        s.append(write_time(self.archived_at).as_str());
        s.append(",\"trashed_at\":");
        s.append(write_time(self.trashed_at).as_str());
        s.append(",\"purge_after\":");
        s.append(write_time(self.purge_after).as_str());
        s.append(",\"superseded_by\":");
        s.append(write_opt_str(&self.superseded_by).as_str());
        s.append(",\"supersede_reason\":");
        s.append(write_opt_str(&self.supersede_reason).as_str());
        s.append(",\"verified_at\":");
        s.append(write_time(self.verified_at).as_str());
        s.append(",\"source_ref\":");
        s.append(write_opt_str(&self.source_ref).as_str());
        s.append(",\"author\":");
        s.append(write_str(self.author.as_str()).as_str());
        s.append("}");
        s
    }
}

/// A memory as JSON, the way it is shown.
pub open spec fn memory_json(m: MemoryV) -> JsonV {
    JsonV::Object(
        Map::empty().insert(
            "id"@,
            JsonV::Str(m.id),
        ).insert(
            "type"@,
            JsonV::Str(m.type_),
        ).insert(
            "name"@,
            JsonV::Str(m.name),
        ).insert(
            "description"@,
            JsonV::Str(m.description),
        ).insert(
            "content"@,
            JsonV::Str(m.content),
        ).insert(
            "source"@,
            JsonV::Str(m.source),
        ).insert(
            "tags"@,
            JsonV::Str(m.tags),
        ).insert(
            "cwd"@,
            JsonV::Str(m.cwd),
        ).insert(
            "is_active"@,
            JsonV::Bool(m.is_active),
        ).insert(
            "lifecycle"@,
            JsonV::Str(m.lifecycle),
        ).insert(
            "created_at"@,
            JsonV::Number(int_number(m.created_at)),
        ).insert(
            "updated_at"@,
            JsonV::Number(int_number(m.updated_at)),
        ),
    )
}

/// Writes a memory as JSON.
pub fn memory_to_json(m: &Memory) -> (r: Json)
    ensures
        r.tree() == memory_json(m@),
{
    let mut o = JsonObject::new();
    o.insert_str("id", m.id.as_str());
    o.insert_str("type", m.type_.as_str());
    o.insert_str("name", m.name.as_str());
    o.insert_str("description", m.description.as_str());
    o.insert_str("content", m.content.as_str());
    o.insert_str("source", m.source.as_str());
    o.insert_str("tags", m.tags.as_str());
    o.insert_str("cwd", m.cwd.as_str());
    o.insert_bool("is_active", m.is_active);
    o.insert_str("lifecycle", m.lifecycle.as_str());
    o.insert_int("created_at", m.created_at);
    o.insert_int("updated_at", m.updated_at);
    o.done()
}

} // verus!
