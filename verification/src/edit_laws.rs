//! What adding, changing, importing and taking a memory leave in the store, field
//! by field.
use crate::edit::{
    addition, change, imported, indexed, new_memory, reindexed_entry, storable, with_entry_taken,
    with_fields, AddV, UpdateV,
};
use crate::kx::{IngestAction, KxEntryV};
use crate::rows::{snapshot, MemoryV};
use crate::settings::SettingsV;
use crate::store::{
    archived, lemma_position, lemma_position_is, lifecycle_set, lifecycle_step, position, restored,
    trashed, StoreV,
};
use crate::text::blank;
use vstd::prelude::*;

verus! {

/// A memory that is put in another's place is found there.
proof fn lemma_put(s: StoreV, i: int, m: MemoryV)
    requires
        position(s.memories, m.id) == Some(i),
    ensures
        position(s.memories.update(i, m), m.id) == Some(i),
{
    lemma_position(s.memories, m.id);
    let u = s.memories.update(i, m);
    assert forall|k: int| 0 <= k < i implies (#[trigger] u[k]).id != m.id by {
        assert(s.memories[k].id != m.id);
    }
    lemma_position_is(u, m.id, i);
}

/// After a change each field that was given has the value given and each that
/// was not has the value it had; nothing else of the memory changes but the time
/// of the change, and one entry of the log shows the memory before and after.
pub proof fn law_change_sets_what_is_given(
    s: StoreV,
    a: UpdateV,
    body: Option<Seq<char>>,
    ts: i64,
)
    requires
        change(s, a, body, ts) is Ok,
    ensures
        s.get(a.id) is Some,
        ({
            let t = change(s, a, body, ts)->Ok_0;
            let m = s.get(a.id)->0;
            let n = t.get(a.id)->0;
            &&& t.get(a.id) is Some
            &&& match a.name {
                Some(x) => n.name == x,
                None => n.name == m.name,
            }
            &&& match a.description {
                Some(x) => n.description == x,
                None => n.description == m.description,
            }
            &&& match body {
                Some(x) => n.content == x,
                None => n.content == m.content,
            }
            &&& match a.tags {
                Some(x) => n.tags == x,
                None => n.tags == m.tags,
            }
            &&& match a.active {
                Some(x) => n.is_active == x,
                None => n.is_active == m.is_active,
            }
            &&& match a.scope {
                Some(x) => n.scope == x,
                None => n.scope == m.scope,
            }
            &&& n.updated_at == ts
            &&& n.id == m.id && n.type_ == m.type_ && n.source == m.source && n.cwd == m.cwd
            &&& n.lifecycle == m.lifecycle && n.created_at == m.created_at && n.archived_at
                == m.archived_at && n.trashed_at == m.trashed_at && n.purge_after == m.purge_after
            &&& n.superseded_by == m.superseded_by && n.supersede_reason == m.supersede_reason
            &&& n.verified_at == m.verified_at && n.source_ref == m.source_ref && n.author
                == m.author
            &&& n.valid_from == m.valid_from && n.valid_to == m.valid_to
            &&& t.memories.len() == s.memories.len()
            &&& t.events.len() == s.events.len() + 1
            &&& t.events.last().action == "update"@ && t.events.last().memory_id == a.id
                && t.events.last().ts == ts
            &&& t.events.last().before_json == Some(snapshot(m)) && t.events.last().after_json
                == Some(snapshot(n))
        }),
{
    lemma_position(s.memories, a.id);
    let i = position(s.memories, a.id)->0;
    let m = with_fields(s.memories[i], a, storable(body)->Ok_0, ts);
    lemma_put(s, i, m);
}

/// A change is refused exactly where the body given is blank, no memory has the
/// id, or nothing at all is given.
pub proof fn law_change_is_refused(s: StoreV, a: UpdateV, body: Option<Seq<char>>, ts: i64)
    ensures
        change(s, a, body, ts) is Err <==> {
            ||| body is Some && blank(body->0)
            ||| forall|i: int| 0 <= i < s.memories.len() ==> (#[trigger] s.memories[i]).id != a.id
            ||| a.name is None && a.description is None && body is None && a.tags is None
                && a.active is None && a.scope is None
        },
{
    lemma_position(s.memories, a.id);
}

/// Changing one field and then another leaves the first as it was set: of two
/// changes the later wins field by field.
pub proof fn law_later_change_wins(
    s: StoreV,
    a: UpdateV,
    body: Option<Seq<char>>,
    t1: i64,
    b: UpdateV,
    body2: Option<Seq<char>>,
    t2: i64,
)
    requires
        a.id == b.id,
        change(s, a, body, t1) is Ok,
        change(change(s, a, body, t1)->Ok_0, b, body2, t2) is Ok,
    ensures
        ({
            let n = change(change(s, a, body, t1)->Ok_0, b, body2, t2)->Ok_0.get(a.id)->0;
            &&& b.name is None && a.name is Some ==> n.name == a.name->0
            &&& b.name is Some ==> n.name == b.name->0
            &&& body2 is None && body is Some ==> n.content == body->0
            &&& body2 is Some ==> n.content == body2->0
            &&& b.tags is None && a.tags is Some ==> n.tags == a.tags->0
            &&& b.tags is Some ==> n.tags == b.tags->0
        }),
{
    law_change_sets_what_is_given(s, a, body, t1);
    law_change_sets_what_is_given(change(s, a, body, t1)->Ok_0, b, body2, t2);
}

/// What was added is read back as it was given: under its id, in force, with the
/// body, the fields, the author and the scope that were asked for, and it is the
/// one entry that the log gained.
pub proof fn law_addition_is_read_back(
    s: StoreV,
    a: AddV,
    body: Option<Seq<char>>,
    id: Seq<char>,
    ts: i64,
    settings: SettingsV,
)
    requires
        addition(s, a, body, id, ts, settings) is Ok,
    ensures
        ({
            let t = addition(s, a, body, id, ts, settings)->Ok_0;
            let m = t.get(id)->0;
            &&& s.get(id) is None
            &&& t.get(id) is Some
            &&& m.id == id && body == Some(m.content)
            &&& m.type_ == a.type_ && m.name == a.name && m.description == a.description
            &&& m.tags == a.tags && m.cwd == a.cwd && m.source == a.source && m.source_ref
                == a.source_ref
            &&& m.is_active && m.lifecycle == "active"@
            &&& m.created_at == ts && m.updated_at == ts
            &&& m.superseded_by is None && m.supersede_reason is None && m.verified_at is None
            &&& m.archived_at is None && m.trashed_at is None && m.purge_after is None
            &&& m.valid_from is None && m.valid_to is None
            &&& a.author is Some ==> m.author == a.author->0
            &&& a.author is None && settings.var("AGENT_AUTHOR"@) is Some ==> Some(m.author)
                == settings.var("AGENT_AUTHOR"@)
            &&& a.author is None && settings.var("AGENT_AUTHOR"@) is None && settings.var(
                "CLAUDE_PROFILE"@,
            ) is Some ==> Some(m.author) == settings.var("CLAUDE_PROFILE"@)
            &&& a.scope is Some && a.scope->0.len() > 0 ==> m.scope == a.scope->0
            &&& a.scope is None && settings.var("CLAUDE_PROFILE"@) is None ==> m.scope == "shared"@
            &&& a.scope is None && settings.var("CLAUDE_PROFILE"@) is Some && settings.var(
                "CLAUDE_PROFILE"@,
            )->0.len() > 0 ==> Some(m.scope) == settings.var("CLAUDE_PROFILE"@)
            &&& t.memories == s.memories.push(m)
            &&& t.events.len() == s.events.len() + 1
            &&& t.events.last().action == "add"@ && t.events.last().memory_id == id
                && t.events.last().ts == ts && t.events.last().before_json is None
                && t.events.last().after_json == Some(snapshot(m))
        }),
{
    lemma_position(s.memories, id);
    let m = new_memory(a, body->0, id, ts, settings);
    let u = s.memories.push(m);
    assert forall|k: int| 0 <= k < s.memories.len() implies (#[trigger] u[k]).id != id by {
        assert(s.memories[k].id != id);
    }
    lemma_position_is(u, id, s.memories.len() as int);
}

/// An addition is accepted exactly where its type is one of the four, it has a
/// body that is not blank, and no memory has the id.
pub proof fn law_addition_is_accepted(
    s: StoreV,
    a: AddV,
    body: Option<Seq<char>>,
    id: Seq<char>,
    ts: i64,
    settings: SettingsV,
)
    ensures
        addition(s, a, body, id, ts, settings) is Ok <==> {
            &&& a.type_ == "user"@ || a.type_ == "feedback"@ || a.type_ == "project"@ || a.type_
                == "reference"@
            &&& body is Some && !blank(body->0)
            &&& forall|i: int| 0 <= i < s.memories.len() ==> (#[trigger] s.memories[i]).id != id
        },
{
    lemma_position(s.memories, id);
}

/// A document that is taken stands in the store as it reads, whether it was new
/// or replaced what the index had; one that is passed over had not changed.
pub proof fn law_taken_entry_is_read_back(
    s: StoreV,
    e: KxEntryV,
    tags: Seq<char>,
    cwd: Seq<char>,
    scope: Seq<char>,
    force: bool,
    now: i64,
)
    ensures
        ({
            let (action, t) = with_entry_taken(s, e, tags, cwd, scope, force, now);
            let m = t.get(e.id)->0;
            &&& t.get(e.id) is Some
            &&& action == IngestAction::Inserted <==> s.get(e.id) is None
            &&& action == IngestAction::Skipped <==> s.get(e.id) is Some && !force && s.get(
                e.id,
            )->0.source == e.source
            &&& action == IngestAction::Skipped ==> t == s
            &&& action != IngestAction::Skipped ==> {
                &&& m.id == e.id && m.name == e.name && m.description == e.description && m.content
                    == e.content && m.source == e.source
                &&& m.tags == tags && m.cwd == cwd && m.scope == scope
                &&& m.valid_from == Some(e.valid_from as i64) && m.updated_at == now
                &&& m.is_active && m.lifecycle == "active"@
            }
            &&& action == IngestAction::Inserted ==> m.type_ == "kx"@ && m.author == "kx"@
                && m.created_at == now && m.source_ref == Some(e.source_ref) && m.valid_to is None
                && m.superseded_by is None && t.memories == s.memories.push(m)
            &&& action == IngestAction::Updated ==> m.type_ == s.get(e.id)->0.type_ && m.author
                == s.get(e.id)->0.author && m.created_at == s.get(e.id)->0.created_at
                && m.source_ref == s.get(e.id)->0.source_ref && m.superseded_by == s.get(
                e.id,
            )->0.superseded_by && t.memories.len() == s.memories.len()
            &&& t.events == s.events && t.edges == s.edges && t.topics == s.topics && t.conflicts
                == s.conflicts
        }),
{
    lemma_position(s.memories, e.id);
    match position(s.memories, e.id) {
        None => {
            let u = s.memories.push(indexed(e, tags, cwd, scope, now));
            assert forall|k: int| 0 <= k < s.memories.len() implies (#[trigger] u[k]).id
                != e.id by {
                assert(s.memories[k].id != e.id);
            }
            lemma_position_is(u, e.id, s.memories.len() as int);
        },
        Some(i) => {
            lemma_put(s, i, reindexed_entry(s.memories[i], e, tags, cwd, scope, now));
        },
    }
}

/// An imported memory is what the file holds: curated, shared, in force, with
/// nothing of a past.
pub proof fn law_imported_is_what_the_file_holds(
    id: Seq<char>,
    type_: Seq<char>,
    name: Seq<char>,
    description: Seq<char>,
    content: Seq<char>,
    ts: i64,
)
    ensures
        ({
            let m = imported(id, type_, name, description, content, ts);
            &&& m.id == id && m.type_ == type_ && m.name == name && m.description == description
                && m.content == content
            &&& m.is_active && m.lifecycle == "active"@ && m.scope == "shared"@ && m.source
                == "curated"@
            &&& m.created_at == ts && m.updated_at == ts
            &&& m.superseded_by is None && m.archived_at is None && m.trashed_at is None
                && m.verified_at is None && m.valid_to is None
        }),
{
    reveal_strlit("");
}

/// A lifecycle that is set shows in the memory, stamps the time of it, and leaves
/// every word of the memory; what is archived or thrown away is active no more
/// and what is restored is active again. The log gains one entry with the name of
/// what was done.
pub proof fn law_lifecycle_shows(
    s: StoreV,
    id: Seq<char>,
    lifecycle: Seq<char>,
    reason: Seq<char>,
    source_report: Seq<char>,
    ts: i64,
)
    ensures
        lifecycle_set(s, id, lifecycle, reason, source_report, ts) is Ok <==> {
            &&& exists|i: int| 0 <= i < s.memories.len() && (#[trigger] s.memories[i]).id == id
            &&& lifecycle == "active"@ || lifecycle == "archived"@ || lifecycle == "trashed"@
        },
        lifecycle_set(s, id, lifecycle, reason, source_report, ts) is Ok ==> ({
            let t = lifecycle_set(s, id, lifecycle, reason, source_report, ts)->Ok_0;
            let m = s.get(id)->0;
            let n = t.get(id)->0;
            let e = t.events.last();
            &&& t.get(id) is Some && n.lifecycle == lifecycle && n.updated_at == ts
            &&& n.is_active <==> lifecycle == "active"@
            &&& lifecycle == "archived"@ ==> n.archived_at == Some(ts) && e.action == "archive"@
            &&& lifecycle == "trashed"@ ==> n.trashed_at == Some(ts) && n.archived_at
                == m.archived_at && e.action == "trash"@
            &&& lifecycle == "active"@ ==> n.archived_at is None && n.trashed_at is None
                && n.purge_after is None && n.superseded_by is None && n.supersede_reason is None
                && e.action == "restore"@
            &&& lifecycle != "active"@ ==> n.superseded_by == m.superseded_by && n.supersede_reason
                == m.supersede_reason
            &&& n.id == m.id && n.type_ == m.type_ && n.name == m.name && n.description
                == m.description && n.content == m.content
            &&& n.source == m.source && n.tags == m.tags && n.cwd == m.cwd && n.scope == m.scope
            &&& n.created_at == m.created_at && n.verified_at == m.verified_at && n.author
                == m.author && n.source_ref == m.source_ref && n.valid_from == m.valid_from
                && n.valid_to == m.valid_to
            &&& t.events.len() == s.events.len() + 1 && e.memory_id == id && e.ts == ts && e.reason
                == reason && e.source_report == source_report
            &&& e.before_json == Some(snapshot(m)) && e.after_json == Some(snapshot(n))
        }),
{
    reveal_strlit("active");
    reveal_strlit("archived");
    reveal_strlit("trashed");
    assert("active"@.len() == 6 && "archived"@.len() == 8 && "trashed"@.len() == 7);
    lemma_position(s.memories, id);
    match position(s.memories, id) {
        None => {},
        Some(i) => {
            let m = s.memories[i];
            match lifecycle_step(m, lifecycle, ts) {
                None => {},
                Some((action, n)) => {
                    lemma_put(s, i, n);
                },
            }
        },
    }
}

} // verus!
