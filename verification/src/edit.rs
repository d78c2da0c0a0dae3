//! Writing memories: adding, changing, importing and indexing them, and the
//! membership of the identity kernel.
use crate::kx::{IngestAction, KxEntry, KxEntryV};
use crate::rows::{memories, snapshot, Memory, MemoryV};
use crate::server::{comma_list, trimmed_pieces};
use crate::settings::{Settings, SettingsV};
use crate::sql::{resolve_write_scope, write_scope};
use crate::store::{
    agrees, can_log, missing_memory, no_memory, position, topics_of, topics_view, without_topics,
    Changed, Store, StoreV, TopicV,
};
use crate::supersede::{acting_author, default_author};
use crate::text::{
    after_prefix, blank, chars_of, copy_opt, find_first, find_from, is_blank, is_listed, join,
    joined, lemma_texts_push, lines, listed, opt_text, same, skip_any, skip_white, slice_text,
    split_lines, split_on, strip_prefix, texts, trim, trim_start, trim_start_any, trimmed,
};
use vstd::prelude::*;

verus! {

/// The arguments of an addition.
#[derive(Debug)]
pub struct AddArgs {
    pub type_: String,
    pub name: String,
    pub description: String,
    /// The body; `-` for standard input.
    pub content: Option<String>,
    /// The file to read the body from.
    pub content_file: Option<String>,
    pub tags: String,
    pub cwd: String,
    pub source: String,
    pub scope: Option<String>,
    pub source_ref: Option<String>,
    pub author: Option<String>,
    pub no_adjudicate: bool,
}

/// The arguments of a change.
#[derive(Debug)]
pub struct UpdateArgs {
    pub id: String,
    pub name: Option<String>,
    pub description: Option<String>,
    pub content: Option<String>,
    pub content_file: Option<String>,
    pub tags: Option<String>,
    pub active: Option<bool>,
    pub scope: Option<String>,
}

/// What an addition asks for, besides the body.
pub struct AddV {
    pub type_: Seq<char>,
    pub name: Seq<char>,
    pub description: Seq<char>,
    pub tags: Seq<char>,
    pub cwd: Seq<char>,
    pub source: Seq<char>,
    pub scope: Option<Seq<char>>,
    pub source_ref: Option<Seq<char>>,
    pub author: Option<Seq<char>>,
}

impl View for AddArgs {
    type V = AddV;

    open spec fn view(&self) -> AddV {
        AddV {
            type_: self.type_@,
            name: self.name@,
            description: self.description@,
            tags: self.tags@,
            cwd: self.cwd@,
            source: self.source@,
            scope: opt_text(self.scope),
            source_ref: opt_text(self.source_ref),
            author: opt_text(self.author),
        }
    }
}

/// What a change asks for, besides the body.
pub struct UpdateV {
    pub id: Seq<char>,
    pub name: Option<Seq<char>>,
    pub description: Option<Seq<char>>,
    pub tags: Option<Seq<char>>,
    pub active: Option<bool>,
    pub scope: Option<Seq<char>>,
}

impl View for UpdateArgs {
    type V = UpdateV;

    open spec fn view(&self) -> UpdateV {
        UpdateV {
            id: self.id@,
            name: opt_text(self.name),
            description: opt_text(self.description),
            tags: opt_text(self.tags),
            active: self.active,
            scope: opt_text(self.scope),
        }
    }
}

/// Where a body comes from.
#[derive(Debug)]
pub enum ContentSource {
    File(String),
    Stdin,
    Inline(String),
    Absent,
}

/// Decides where a body comes from: a file before standard input, which `-`
/// stands for, before the inline text.
pub fn content_source(content: &Option<String>, content_file: &Option<String>) -> (r: ContentSource)
    ensures
        match r {
            ContentSource::File(p) => opt_text(*content_file) == Some(p@),
            ContentSource::Stdin => content_file is None && opt_text(*content) == Some("-"@),
            ContentSource::Inline(c) => content_file is None && opt_text(*content) == Some(c@)
                && c@ != "-"@,
            ContentSource::Absent => content_file is None && content is None,
        },
{
    match content_file {
        Some(p) => ContentSource::File(p.clone()),
        None => match content {
            Some(c) => if same(c.as_str(), "-") {
                ContentSource::Stdin
            } else {
                ContentSource::Inline(c.clone())
            },
            None => ContentSource::Absent,
        },
    }
}

/// The message for a body without text.
pub open spec fn blank_refused() -> Seq<char> {
    "memory content resolved to empty/whitespace-only; refusing to store a blank body"@
}

/// A body as it may be stored: absent, or with some text; a blank one is
/// refused.
pub open spec fn storable(body: Option<Seq<char>>) -> Result<Option<Seq<char>>, Seq<char>> {
    match body {
        Some(c) => if blank(c) {
            Err(blank_refused())
        } else {
            Ok(Some(c))
        },
        None => Ok(None),
    }
}

/// Checks a body that was read.
pub fn resolve_content(body: &Option<String>) -> (r: Result<Option<String>, String>)
    ensures
        match r {
            Ok(b) => storable(opt_text(*body)) == Ok::<Option<Seq<char>>, Seq<char>>(opt_text(b)),
            Err(e) => storable(opt_text(*body)) == Err::<Option<Seq<char>>, Seq<char>>(e@),
        },
{
    match body {
        Some(c) => if is_blank(c.as_str()) {
            Err(
                "memory content resolved to empty/whitespace-only; refusing to store a blank body".to_string(),
            )
        } else {
            Ok(Some(c.clone()))
        },
        None => Ok(None),
    }
}

/// Whether a type is one that can be added by hand.
pub open spec fn addable_type(t: Seq<char>) -> bool {
    t == "user"@ || t == "feedback"@ || t == "project"@ || t == "reference"@
}

/// A memory as it is added.
pub open spec fn new_memory(
    a: AddV,
    content: Seq<char>,
    id: Seq<char>,
    ts: i64,
    s: SettingsV,
) -> MemoryV {
    MemoryV {
        id,
        type_: a.type_,
        name: a.name,
        description: a.description,
        content,
        source: a.source,
        tags: a.tags,
        cwd: a.cwd,
        scope: write_scope(a.scope, s),
        is_active: true,
        lifecycle: "active"@,
        created_at: ts,
        updated_at: ts,
        archived_at: None,
        trashed_at: None,
        purge_after: None,
        superseded_by: None,
        supersede_reason: None,
        verified_at: None,
        source_ref: a.source_ref,
        author: match a.author {
            Some(w) => w,
            None => acting_author(s),
        },
        valid_from: None,
        valid_to: None,
    }
}

/// The store with a memory added at the end, indexed and logged.
pub open spec fn with_added(st: StoreV, m: MemoryV, ts: i64) -> StoreV {
    (StoreV { memories: st.memories.push(m), ..st }).reindexed(m).logged(
        ts,
        "agent"@,
        "add"@,
        m.id,
        None,
        Some(snapshot(m)),
        ""@,
        ""@,
    )
}

/// Adding a memory under a fresh id.
pub open spec fn addition(
    st: StoreV,
    a: AddV,
    body: Option<Seq<char>>,
    id: Seq<char>,
    ts: i64,
    s: SettingsV,
) -> Changed {
    if !addable_type(a.type_) {
        Err("type must be one of: user, feedback, project, reference"@)
    } else {
        match storable(body) {
            Err(e) => Err(e),
            Ok(None) => Err(
                "content required: pass --content <text>, --content-file <path>, or --content - to read stdin"@,
            ),
            Ok(Some(content)) => if position(st.memories, id) is Some {
                Err("UNIQUE constraint failed: memories.id"@)
            } else {
                Ok(with_added(st, new_memory(a, content, id, ts, s), ts))
            },
        }
    }
}

/// A memory with the fields that a change gives.
pub open spec fn with_fields(
    m: MemoryV,
    a: UpdateV,
    content: Option<Seq<char>>,
    ts: i64,
) -> MemoryV {
    MemoryV {
        name: match a.name {
            Some(x) => x,
            None => m.name,
        },
        description: match a.description {
            Some(x) => x,
            None => m.description,
        },
        content: match content {
            Some(x) => x,
            None => m.content,
        },
        tags: match a.tags {
            Some(x) => x,
            None => m.tags,
        },
        is_active: match a.active {
            Some(x) => x,
            None => m.is_active,
        },
        scope: match a.scope {
            Some(x) => x,
            None => m.scope,
        },
        updated_at: ts,
        ..m
    }
}

/// Whether a change gives any field.
pub open spec fn gives_field(a: UpdateV, content: Option<Seq<char>>) -> bool {
    a.name is Some || a.description is Some || content is Some || a.tags is Some || a.active is Some
        || a.scope is Some
}

/// Changing a memory. A change without any field finds nothing to change.
pub open spec fn change(
    st: StoreV,
    a: UpdateV,
    body: Option<Seq<char>>,
    ts: i64,
) -> Changed {
    match storable(body) {
        Err(e) => Err(e),
        Ok(content) => match position(st.memories, a.id) {
            Some(i) if gives_field(a, content) => {
                let m = with_fields(st.memories[i], a, content, ts);
                Ok(
                    st.with_memory(i, m).reindexed(m).logged(
                        ts,
                        "agent"@,
                        "update"@,
                        a.id,
                        Some(snapshot(st.memories[i])),
                        Some(snapshot(m)),
                        ""@,
                        ""@,
                    ),
                )
            },
            _ => Err(no_memory(a.id)),
        },
    }
}

/// A memory as it is imported from a file.
pub open spec fn imported(
    id: Seq<char>,
    type_: Seq<char>,
    name: Seq<char>,
    description: Seq<char>,
    content: Seq<char>,
    ts: i64,
) -> MemoryV {
    MemoryV {
        id,
        type_,
        name,
        description,
        content,
        source: "curated"@,
        tags: ""@,
        cwd: ""@,
        scope: "shared"@,
        is_active: true,
        lifecycle: "active"@,
        created_at: ts,
        updated_at: ts,
        archived_at: None,
        trashed_at: None,
        purge_after: None,
        superseded_by: None,
        supersede_reason: None,
        verified_at: None,
        source_ref: None,
        author: ""@,
        valid_from: None,
        valid_to: None,
    }
}

/// A memory of the knowledge index as it is first taken.
pub open spec fn indexed(
    e: KxEntryV,
    tags: Seq<char>,
    cwd: Seq<char>,
    scope: Seq<char>,
    now: i64,
) -> MemoryV {
    MemoryV {
        id: e.id,
        type_: "kx"@,
        name: e.name,
        description: e.description,
        content: e.content,
        source: e.source,
        tags,
        cwd,
        scope,
        is_active: true,
        lifecycle: "active"@,
        created_at: now,
        updated_at: now,
        archived_at: None,
        trashed_at: None,
        purge_after: None,
        superseded_by: None,
        supersede_reason: None,
        verified_at: None,
        source_ref: Some(e.source_ref),
        author: "kx"@,
        valid_from: Some(e.valid_from as i64),
        valid_to: None,
    }
}

/// A memory of the knowledge index as it is taken again.
pub open spec fn reindexed_entry(
    m: MemoryV,
    e: KxEntryV,
    tags: Seq<char>,
    cwd: Seq<char>,
    scope: Seq<char>,
    now: i64,
) -> MemoryV {
    MemoryV {
        name: e.name,
        description: e.description,
        content: e.content,
        source: e.source,
        tags,
        cwd,
        scope,
        valid_from: Some(e.valid_from as i64),
        updated_at: now,
        is_active: true,
        lifecycle: "active"@,
        ..m
    }
}

/// The store after a document was taken: a new row, the row replaced in place,
/// or nothing changed.
pub open spec fn with_entry_taken(
    st: StoreV,
    e: KxEntryV,
    tags: Seq<char>,
    cwd: Seq<char>,
    scope: Seq<char>,
    force: bool,
    now: i64,
) -> (IngestAction, StoreV) {
    match position(st.memories, e.id) {
        None => (
            IngestAction::Inserted,
            StoreV { memories: st.memories.push(indexed(e, tags, cwd, scope, now)), ..st },
        ),
        Some(i) => if st.memories[i].source == e.source && !force {
            (IngestAction::Skipped, st)
        } else {
            (
                IngestAction::Updated,
                st.with_memory(i, reindexed_entry(st.memories[i], e, tags, cwd, scope, now)),
            )
        },
    }
}

/// The tag of the memories in the identity kernel.
pub open spec fn identity_tag() -> Seq<char> {
    "identity"@
}

/// The tags of a comma-separated list.
pub open spec fn tag_list(tags: Seq<char>) -> Seq<Seq<char>> {
    trimmed_pieces(split_on(tags, ','))
}

/// Whether a list of tags holds the kernel's.
pub open spec fn in_kernel(tags: Seq<char>) -> bool {
    listed(tag_list(tags), identity_tag())
}

/// The texts other than one.
pub open spec fn without(v: Seq<Seq<char>>, x: Seq<char>) -> Seq<Seq<char>>
    decreases v.len(),
{
    if v.len() == 0 {
        Seq::empty()
    } else if v.last() == x {
        without(v.drop_last(), x)
    } else {
        without(v.drop_last(), x).push(v.last())
    }
}

/// Tags with the kernel's added or taken away.
pub open spec fn member_tags(tags: Seq<char>, member: bool) -> Seq<char> {
    if member {
        joined(tag_list(tags).push(identity_tag()), ","@)
    } else {
        joined(without(tag_list(tags), identity_tag()), ","@)
    }
}

/// The name of a membership change.
pub open spec fn membership_action(member: bool) -> Seq<char> {
    if member {
        "promote"@
    } else {
        "demote"@
    }
}

/// Setting whether a memory is in the identity kernel. Where it is already so,
/// nothing changes and nothing is logged.
pub open spec fn membership(
    st: StoreV,
    id: Seq<char>,
    member: bool,
    reason: Seq<char>,
    ts: i64,
) -> Changed {
    match position(st.memories, id) {
        None => Err(no_memory(id)),
        Some(i) => if in_kernel(st.memories[i].tags) == member {
            Ok(st)
        } else {
            let m = MemoryV {
                tags: member_tags(st.memories[i].tags, member),
                updated_at: ts,
                ..st.memories[i]
            };
            Ok(
                st.with_memory(i, m).logged(
                    ts,
                    "agent"@,
                    membership_action(member),
                    id,
                    Some(snapshot(st.memories[i])),
                    Some(snapshot(m)),
                    reason,
                    ""@,
                ),
            )
        },
    }
}

/// What is printed for a membership change.
pub open spec fn membership_note(id: Seq<char>, member: bool, already: bool) -> Seq<char> {
    if already {
        "no change: "@ + id + " is already "@ + (if member {
            "in"@
        } else {
            "out of"@
        }) + " the kernel"@
    } else {
        membership_action(member) + "d "@ + id + " "@ + (if member {
            "into"@
        } else {
            "out of"@
        }) + " the identity kernel (takes effect next session start)"@
    }
}

/// The topic index of some memories: that of each active one in turn, in place
/// of what was there under its id.
pub open spec fn all_topics(ms: Seq<MemoryV>) -> Seq<TopicV>
    decreases ms.len(),
{
    if ms.len() == 0 {
        Seq::empty()
    } else {
        let init = all_topics(ms.drop_last());
        if ms.last().is_active {
            without_topics(init, ms.last().id) + topics_of(ms.last())
        } else {
            init
        }
    }
}

/// How many of some memories are active.
pub open spec fn active_count(ms: Seq<MemoryV>) -> nat
    decreases ms.len(),
{
    if ms.len() == 0 {
        0
    } else {
        active_count(ms.drop_last()) + (if ms.last().is_active {
            1nat
        } else {
            0
        })
    }
}

impl Store {
    /// Appends a memory.
    fn push_memory(&mut self, m: Memory)
        ensures
            final(self)@ == (StoreV { memories: old(self)@.memories.push(m@), ..old(self)@ }),
    {
        let ghost before = self.memories@;
        self.memories.push(m);
        assert(memories(self.memories@) =~= memories(before).push(m@));
    }

    /// Adds a memory with a body that was read, under an id that the caller
    /// drew.
    pub fn add(
        &mut self,
        args: &AddArgs,
        body: &Option<String>,
        id: &str,
        ts: i64,
        s: &Settings,
    ) -> (r: Result<(), String>)
        requires
            can_log(old(self)@),
        ensures
            agrees(
                r,
                old(self)@,
                final(self)@,
                addition(old(self)@, args@, opt_text(*body), id@, ts, s@),
            ),
    {
        let t = args.type_.as_str();
        if !(same(t, "user") || same(t, "feedback") || same(t, "project") || same(
            t,
            "reference",
        )) {
            return Err("type must be one of: user, feedback, project, reference".to_string());
        }
        let content = match resolve_content(body) {
            Ok(Some(c)) => c,
            Ok(None) => {
                return Err(
                    "content required: pass --content <text>, --content-file <path>, or --content - to read stdin".to_string(),
                );
            },
            Err(e) => {
                return Err(e);
            },
        };
        if self.find(id).is_some() {
            return Err("UNIQUE constraint failed: memories.id".to_string());
        }
        let author = match &args.author {
            Some(w) => w.clone(),
            None => default_author(s),
        };
        let m = Memory {
            id: id.to_owned(),
            type_: args.type_.clone(),
            name: args.name.clone(),
            description: args.description.clone(),
            content,
            source: args.source.clone(),
            tags: args.tags.clone(),
            cwd: args.cwd.clone(),
            scope: resolve_write_scope(&args.scope, s),
            is_active: true,
            lifecycle: "active".to_string(),
            created_at: ts,
            updated_at: ts,
            archived_at: None,
            trashed_at: None,
            purge_after: None,
            superseded_by: None,
            supersede_reason: None,
            verified_at: None,
            source_ref: copy_opt(&args.source_ref),
            author,
            valid_from: None,
            valid_to: None,
        };
        let after = m.snapshot_text();
        self.reindex(&m);
        self.push_memory(m);
        self.log(ts, "agent", "add", id, None, Some(after), "", "");
        Ok(())
    }

    /// Changes the given fields of a memory.
    pub fn update(&mut self, args: &UpdateArgs, body: &Option<String>, ts: i64) -> (r: Result<
        (),
        String,
    >)
        requires
            can_log(old(self)@),
        ensures
            agrees(r, old(self)@, final(self)@, change(old(self)@, args@, opt_text(*body), ts)),
    {
        let content = match resolve_content(body) {
            Ok(c) => c,
            Err(e) => {
                return Err(e);
            },
        };
        let given = args.name.is_some() || args.description.is_some() || content.is_some()
            || args.tags.is_some() || args.active.is_some() || args.scope.is_some();
        let i = match self.find(args.id.as_str()) {
            Some(i) => i,
            None => {
                return Err(missing_memory(args.id.as_str()));
            },
        };
        if !given {
            return Err(missing_memory(args.id.as_str()));
        }
        let before = self.memories[i].snapshot_text();
        let mut m = self.memories[i].copy();
        if let Some(x) = &args.name {
            m.name = x.clone();
        }
        if let Some(x) = &args.description {
            m.description = x.clone();
        }
        if let Some(x) = content {
            m.content = x;
        }
        if let Some(x) = &args.tags {
            m.tags = x.clone();
        }
        if let Some(x) = args.active {
            m.is_active = x;
        }
        if let Some(x) = &args.scope {
            m.scope = x.clone();
        }
        m.updated_at = ts;
        let after = m.snapshot_text();
        self.reindex(&m);
        self.put_memory(i, m);
        self.log(ts, "agent", "update", args.id.as_str(), Some(before), Some(after), "", "");
        Ok(())
    }

    /// Rebuilds the topic index from the memories. Returns how many are active.
    pub fn rebuild_full_index(&mut self) -> (r: usize)
        ensures
            final(self)@ == (StoreV { topics: all_topics(old(self)@.memories), ..old(self)@ }),
            r == active_count(old(self)@.memories),
    {
        let ghost start = self@;
        self.topics = Vec::new();
        let ghost ms = start.memories;
        let n: usize = self.memories.len();
        let mut count: usize = 0;
        let mut i: usize = 0;
        assert(topics_view(self.topics@) =~= all_topics(ms.take(0)));
        assert(self@ == (StoreV { topics: all_topics(ms.take(0)), ..start }));
        while i < n
            invariant
                ms == start.memories,
                n == ms.len(),
                n == self.memories@.len(),
                i <= n,
                count <= i,
                count == active_count(ms.take(i as int)),
                self@ == (StoreV { topics: all_topics(ms.take(i as int)), ..start }),
            decreases n - i,
        {
            assert(ms.take(i as int + 1).drop_last() =~= ms.take(i as int));
            assert(ms.take(i as int + 1).last() == ms[i as int]);
            assert(ms[i as int] == self.memories@[i as int]@);
            if self.memories[i].is_active {
                count = count + 1;
                let m = self.memories[i].copy();
                self.reindex(&m);
            }
            assert(self@.memories == ms);
            assert(self@.memories.len() == self.memories@.len());
            i = i + 1;
        }
        assert(ms.take(i as int) =~= ms);
        count
    }

    /// Imports a memory from a file, unless its id is taken. Returns whether it
    /// was imported.
    pub fn import_memory(
        &mut self,
        id: &str,
        type_: &str,
        name: &str,
        description: &str,
        content: &str,
        ts: i64,
    ) -> (r: bool)
        ensures
            r == (position(old(self)@.memories, id@) is None),
            final(self)@ == (if r {
                let m = imported(id@, type_@, name@, description@, content@, ts);
                (StoreV {
                    memories: old(self)@.memories.push(m),
                    ..old(self)@
                }).reindexed(m)
            } else {
                old(self)@
            }),
    {
        if self.find(id).is_some() {
            return false;
        }
        let m = Memory {
            id: id.to_owned(),
            type_: type_.to_owned(),
            name: name.to_owned(),
            description: description.to_owned(),
            content: content.to_owned(),
            source: "curated".to_string(),
            tags: "".to_string(),
            cwd: "".to_string(),
            scope: "shared".to_string(),
            is_active: true,
            lifecycle: "active".to_string(),
            created_at: ts,
            updated_at: ts,
            archived_at: None,
            trashed_at: None,
            purge_after: None,
            superseded_by: None,
            supersede_reason: None,
            verified_at: None,
            source_ref: None,
            author: "".to_string(),
            valid_from: None,
            valid_to: None,
        };
        self.reindex(&m);
        self.push_memory(m);
        true
    }

    /// Takes a document into the knowledge index: in place where the index has
    /// it, passed over where it has not changed.
    pub fn ingest_entry(
        &mut self,
        entry: &KxEntry,
        tags: &str,
        cwd: &str,
        scope: &str,
        force: bool,
        now: i64,
    ) -> (r: IngestAction)
        ensures
            (r, final(self)@) == with_entry_taken(
                old(self)@,
                entry@,
                tags@,
                cwd@,
                scope@,
                force,
                now,
            ),
    {
        match self.find(entry.id.as_str()) {
            None => {
                let m = Memory {
                    id: entry.id.clone(),
                    type_: "kx".to_string(),
                    name: entry.name.clone(),
                    description: entry.description.clone(),
                    content: entry.content.clone(),
                    source: entry.source.clone(),
                    tags: tags.to_owned(),
                    cwd: cwd.to_owned(),
                    scope: scope.to_owned(),
                    is_active: true,
                    lifecycle: "active".to_string(),
                    created_at: now,
                    updated_at: now,
                    archived_at: None,
                    trashed_at: None,
                    purge_after: None,
                    superseded_by: None,
                    supersede_reason: None,
                    verified_at: None,
                    source_ref: Some(entry.source_ref.clone()),
                    author: "kx".to_string(),
                    valid_from: Some(entry.valid_from),
                    valid_to: None,
                };
                self.push_memory(m);
                IngestAction::Inserted
            },
            Some(i) => {
                if same(self.memories[i].source.as_str(), entry.source.as_str()) && !force {
                    return IngestAction::Skipped;
                }
                let mut m = self.memories[i].copy();
                m.name = entry.name.clone();
                m.description = entry.description.clone();
                m.content = entry.content.clone();
                m.source = entry.source.clone();
                m.tags = tags.to_owned();
                m.cwd = cwd.to_owned();
                m.scope = scope.to_owned();
                m.valid_from = Some(entry.valid_from);
                m.updated_at = now;
                m.is_active = true;
                m.lifecycle = "active".to_string();
                self.put_memory(i, m);
                IngestAction::Updated
            },
        }
    }

    /// Takes a memory into the identity kernel or out of it; the note that is
    /// printed.
    pub fn kernel_set_membership(&mut self, id: &str, member: bool, reason: &str, ts: i64) -> (r:
        Result<String, String>)
        requires
            can_log(old(self)@),
        ensures
            match r {
                Ok(note) => membership(old(self)@, id@, member, reason@, ts) == Ok::<
                    StoreV,
                    Seq<char>,
                >(final(self)@) && note@ == membership_note(
                    id@,
                    member,
                    in_kernel(old(self)@.get(id@)->0.tags) == member,
                ),
                Err(e) => membership(old(self)@, id@, member, reason@, ts) == Err::<
                    StoreV,
                    Seq<char>,
                >(e@) && final(self)@ == old(self)@,
            },
    {
        let i = match self.find(id) {
            Some(i) => i,
            None => {
                return Err(missing_memory(id));
            },
        };
        let parts = comma_list(self.memories[i].tags.as_str());
        let has = is_listed(&parts, "identity");
        if member == has {
            let mut n = "no change: ".to_string();
            n.append(id);
            n.append(" is already ");
            n.append(
                if member {
                    "in"
                } else {
                    "out of"
                },
            );
            n.append(" the kernel");
            return Ok(n);
        }
        let before = self.memories[i].snapshot_text();
        let new_tags = if member {
            let mut more = parts;
            let t = "identity".to_string();
            proof {
                lemma_texts_push(more@, t);
            }
            more.push(t);
            join(&more, ",")
        } else {
            join(&drop_text(&parts, "identity"), ",")
        };
        let mut m = self.memories[i].copy();
        m.tags = new_tags;
        m.updated_at = ts;
        let after = m.snapshot_text();
        self.put_memory(i, m);
        let action = if member {
            "promote"
        } else {
            "demote"
        };
        self.log(ts, "agent", action, id, Some(before), Some(after), reason, "");
        let mut n = action.to_owned();
        n.append("d ");
        n.append(id);
        n.append(" ");
        n.append(
            if member {
                "into"
            } else {
                "out of"
            },
        );
        n.append(" the identity kernel (takes effect next session start)");
        Ok(n)
    }
}

/// Leaves one text out of a list.
fn drop_text(v: &Vec<String>, x: &str) -> (r: Vec<String>)
    ensures
        texts(r@) == without(texts(v@), x@),
{
    let ghost all = texts(v@);
    let mut out: Vec<String> = Vec::new();
    let mut i: usize = 0;
    assert(texts(out@) =~= without(all.take(0), x@));
    while i < v.len()
        invariant
            all == texts(v@),
            i <= v@.len(),
            texts(out@) == without(all.take(i as int), x@),
        decreases v@.len() - i,
    {
        assert(all.take(i as int + 1).drop_last() =~= all.take(i as int));
        assert(all.take(i as int + 1).last() == v@[i as int]@);
        if !same(v[i].as_str(), x) {
            let t = v[i].clone();
            proof {
                lemma_texts_push(out@, t);
            }
            out.push(t);
        }
        i = i + 1;
    }
    assert(all.take(i as int) =~= all);
    out
}

/// The last value that some lines give for a key, or nothing.
pub open spec fn last_field(ls: Seq<Seq<char>>, prefix: Seq<char>) -> Seq<char>
    decreases ls.len(),
{
    if ls.len() == 0 {
        Seq::empty()
    } else {
        match after_prefix(ls.last(), prefix) {
            Some(v) => trimmed(v),
            None => last_field(ls.drop_last(), prefix),
        }
    }
}

/// What a file with front matter holds.
pub struct FrontMatterV {
    pub type_: Seq<char>,
    pub name: Seq<char>,
    pub description: Seq<char>,
    pub body: Seq<char>,
}

/// What a file with front matter holds.
#[derive(Debug)]
pub struct FrontMatter {
    pub type_: String,
    pub name: String,
    pub description: String,
    pub body: String,
}

impl View for FrontMatter {
    type V = FrontMatterV;

    open spec fn view(&self) -> FrontMatterV {
        FrontMatterV {
            type_: self.type_@,
            name: self.name@,
            description: self.description@,
            body: self.body@,
        }
    }
}

/// What a file with front matter holds: the fields between two lines of dashes
/// and the text behind them. Nothing where the dashes or one of the fields are
/// missing.
pub open spec fn front_matter(raw: Seq<char>) -> Option<FrontMatterV> {
    match after_prefix(skip_white(raw), "---"@) {
        None => None,
        Some(r) => {
            let rest = skip_any(r, "\n"@);
            match find_from(rest, "\n---"@, 0) {
                None => None,
                Some(end) => {
                    let ls = lines(rest.take(end));
                    let f = FrontMatterV {
                        type_: last_field(ls, "type:"@),
                        name: last_field(ls, "name:"@),
                        description: last_field(ls, "description:"@),
                        body: skip_any(rest.skip(end + 4), "\n"@),
                    };
                    if f.type_.len() == 0 || f.name.len() == 0 || f.description.len() == 0 {
                        None
                    } else {
                        Some(f)
                    }
                },
            }
        },
    }
}

/// Reads the last value that some lines give for a key.
fn read_field(ls: &Vec<String>, prefix: &str) -> (r: String)
    ensures
        r@ == last_field(texts(ls@), prefix@),
{
    let ghost all = texts(ls@);
    let mut n: usize = ls.len();
    assert(all.take(n as int) =~= all);
    while n > 0
        invariant
            all == texts(ls@),
            n <= ls@.len(),
            last_field(all, prefix@) == last_field(all.take(n as int), prefix@),
        decreases n,
    {
        assert(all.take(n as int).last() == ls@[n - 1]@);
        assert(all.take(n as int).drop_last() =~= all.take(n - 1));
        if let Some(v) = strip_prefix(ls[n - 1].as_str(), prefix) {
            return trim(v.as_str());
        }
        n = n - 1;
    }
    String::new()
}

/// Reads a file with front matter.
pub fn parse_frontmatter(raw: &str) -> (r: Option<FrontMatter>)
    ensures
        match r {
            Some(f) => front_matter(raw@) == Some(f@),
            None => front_matter(raw@) is None,
        },
{
    let head = trim_start(raw);
    let rest = match strip_prefix(head.as_str(), "---") {
        Some(r) => trim_start_any(r.as_str(), "\n"),
        None => {
            return None;
        },
    };
    let v = chars_of(rest.as_str());
    let mark = chars_of("\n---");
    proof {
        reveal_strlit("\n---");
    }
    let end = match find_first(&v, &mark) {
        Some(i) => i,
        None => {
            return None;
        },
    };
    let front = slice_text(&v, 0, end);
    assert(front@ =~= rest@.take(end as int));
    let tail = slice_text(&v, end + 4, v.len());
    assert(tail@ =~= rest@.skip(end + 4));
    let body = trim_start_any(tail.as_str(), "\n");
    let ls = split_lines(front.as_str());
    let type_ = read_field(&ls, "type:");
    let name = read_field(&ls, "name:");
    let description = read_field(&ls, "description:");
    if type_.as_str().is_empty() || name.as_str().is_empty() || description.as_str().is_empty() {
        return None;
    }
    Some(FrontMatter { type_, name, description, body })
}

} // verus!
