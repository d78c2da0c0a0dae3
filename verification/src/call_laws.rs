//! What the operations themselves owe: of every result that a call may give, in
//! terms of what it was called on.
use crate::adjudicate::{candidates_view, AdjudicateConfig, Candidate, Verdict};
use crate::classify::mutates;
use crate::cli::db_path;
use crate::context::{context_limits, parse_tier, Tier};
use crate::context_laws::{law_match_has_an_entry, law_one_more_entry_adds_its_weight};
use crate::dialogue::{endpoint, poll_wait_ms};
use crate::dialogue_presence::{hold_step, lease_alive, refresh_interval_s};
use crate::edit::{content_source, ContentSource, UpdateArgs};
use crate::edit_laws::law_change_sets_what_is_given;
use crate::embed::{
    hex, needs_embedding, primary_embedder, select_embedder, ChainLink, LinkV, OpenRouterEmbedder,
};
use crate::forward::{
    after_failure, body_source, inline_memory_body, AfterFailure, BodySource,
};
use crate::glob::any_glob;
use crate::json::{Json, JsonObject, JsonV};
use crate::judge_laws::{law_one_verdict_is_applied, law_sure_verdict_supersedes, sureness};
use crate::kx::{walk_step, EntryKind, KxFilters, WalkStep};
use crate::ranking::within;
use crate::recall::{batch_end, days_before, fallback_search, RecallArgs, SearchArgs};
use crate::recall_laws::{
    law_recall_compares_what_is_active, scope_asked, type_asked,
};
use crate::search::{search_statement, Statement};
use crate::search_laws::law_search_is_best_first;
use crate::server::call_answer;
use crate::settings::Settings;
use crate::sql::{values, ScopeFilter, SqlV, TypeFilter};
use crate::store::Store;
use crate::tasks::cutoff;
use crate::text::{ascii_lower, blank, contains, opt_text, texts};
use vstd::prelude::*;

verus! {

/// What a recall compares is, of the memories of the store and in their order,
/// every one that is active, has a vector, is of the type and scope and within
/// the tags and days asked for, and is superseded only where matches are
/// credited; and nothing else.
pub proof fn law_recall_reads_active_memories(
    s: &Store,
    type_: &TypeFilter,
    scope: &ScopeFilter,
    extra: &KxFilters,
    credit: bool,
    embedded: &Vec<String>,
    r: Vec<usize>,
)
    requires
        call_ensures(Store::recall_candidates, (s, type_, scope, extra, credit, embedded), r),
    ensures
        forall|k: int|
            0 <= k < r@.len() ==> {
                let m = s@.memories[(#[trigger] r@[k]) as int];
                &&& r@[k] < s@.memories.len()
                &&& m.is_active
                &&& texts(embedded@).contains(m.id)
                &&& type_asked(type_@, m.type_) && scope_asked(scope@, m.scope) && within(m, extra@)
                &&& m.lifecycle == "superseded"@ ==> credit
            },
        forall|x: int|
            0 <= x < s@.memories.len() && (#[trigger] s@.memories[x]).is_active && texts(
                embedded@,
            ).contains(s@.memories[x].id) && type_asked(type_@, s@.memories[x].type_)
                && scope_asked(scope@, s@.memories[x].scope) && within(s@.memories[x], extra@) && (
            s@.memories[x].lifecycle == "superseded"@ ==> credit) ==> exists|k: int|
                0 <= k < r@.len() && (#[trigger] r@[k]) == x,
        forall|j: int, k: int| 0 <= j < k < r@.len() ==> (#[trigger] r@[j]) < (#[trigger] r@[k]),
{
    let ms = s@.memories;
    law_recall_compares_what_is_active(
        ms,
        type_@,
        scope@,
        extra@,
        credit,
        texts(embedded@),
        ms.len(),
    );
    let at = crate::context::places(r@);
    assert forall|k: int| 0 <= k < r@.len() implies at[k] == (#[trigger] r@[k]) as int by {}
    assert forall|x: int|
        0 <= x < ms.len() && (#[trigger] ms[x]).is_active && texts(embedded@).contains(ms[x].id)
            && type_asked(type_@, ms[x].type_) && scope_asked(scope@, ms[x].scope) && within(
            ms[x],
            extra@,
        ) && (ms[x].lifecycle == "superseded"@ ==> credit) implies exists|k: int|
        0 <= k < r@.len() && (#[trigger] r@[k]) == x by {
        assert(at.contains(x));
        let k = choose|k: int| 0 <= k < at.len() && at[k] == x;
        assert(r@[k] == x);
    }
}

/// The weight of a memory grows by the weight of every index entry that it has
/// for a term asked for: between two stores of which the second has one entry
/// more, the weights differ by that entry's. A memory has a weight exactly where
/// it has such an entry.
pub proof fn law_every_entry_weighs(
    s: &Store,
    t: &Store,
    id: &str,
    terms: &Vec<String>,
    before: Option<i64>,
    after: Option<i64>,
)
    requires
        call_ensures(Store::weight_of, (s, id, terms), before),
        call_ensures(Store::weight_of, (t, id, terms), after),
        t@.topics.len() == s@.topics.len() + 1,
        t@.topics.drop_last() == s@.topics,
    ensures
        ({
            let e = t@.topics.last();
            let counts = e.memory_id == id@ && texts(terms@).contains(e.term);
            let had: int = match before {
                Some(n) => n as int,
                None => 0,
            };
            &&& counts ==> after is Some && after->0 == (if had + e.weight <= i64::MAX {
                had + e.weight
            } else {
                i64::MAX as int
            })
            &&& !counts ==> after == before
        }),
        before is Some <==> exists|i: int|
            0 <= i < s@.topics.len() && (#[trigger] s@.topics[i]).memory_id == id@ && texts(
                terms@,
            ).contains(s@.topics[i].term),
{
    let e = t@.topics.last();
    law_one_more_entry_adds_its_weight(s@.topics, e, id@, texts(terms@));
    law_match_has_an_entry(s@.topics, id@, texts(terms@));
    assert(s@.topics.push(e) =~= t@.topics);
}

/// A search orders by the full-text rank, the best first, before it cuts to the
/// limit.
pub proof fn law_search_orders_best_first(
    query: &str,
    type_: &TypeFilter,
    scope: &ScopeFilter,
    author: &Option<String>,
    extra: &KxFilters,
    limit: i64,
    r: Option<Statement>,
)
    requires
        call_ensures(search_statement, (query, type_, scope, author, extra, limit), r),
        r is Some,
    ensures
        ({
            let sql = r->0.sql@;
            let tail = " ORDER BY rank LIMIT ?"@;
            sql.len() >= tail.len() && sql.skip(sql.len() - tail.len()) == tail
        }),
        values(r->0.bound@).last() == SqlV::Integer(limit as int),
{
    law_search_is_best_first(query@, type_@, scope@, opt_text(*author), extra@, limit);
}

/// A change that succeeds leaves in the store the memory with everything that was
/// given, its body among it, and with everything else as it was; a change that
/// fails leaves the store as it was.
pub proof fn law_update_stores_what_is_given(
    s: &mut Store,
    args: &UpdateArgs,
    body: &Option<String>,
    ts: i64,
    r: Result<(), String>,
)
    requires
        call_ensures(Store::update, (s, args, body, ts), r),
    ensures
        r is Err ==> final(s)@ == old(s)@,
        r is Ok ==> {
            let m = old(s)@.get(args.id@)->0;
            let n = final(s)@.get(args.id@)->0;
            &&& old(s)@.get(args.id@) is Some && final(s)@.get(args.id@) is Some
            &&& n.content == (if body is Some {
                body->0@
            } else {
                m.content
            })
            &&& n.name == (if args.name is Some {
                args.name->0@
            } else {
                m.name
            })
            &&& n.description == (if args.description is Some {
                args.description->0@
            } else {
                m.description
            })
            &&& n.tags == (if args.tags is Some {
                args.tags->0@
            } else {
                m.tags
            })
            &&& n.scope == (if args.scope is Some {
                args.scope->0@
            } else {
                m.scope
            })
            &&& n.is_active == (if args.active is Some {
                args.active->0
            } else {
                m.is_active
            })
            &&& n.updated_at == ts && n.created_at == m.created_at && n.type_ == m.type_
            &&& final(s)@.memories.len() == old(s)@.memories.len()
        },
{
    if r is Ok {
        law_change_sets_what_is_given(old(s)@, args@, opt_text(*body), ts);
    }
}

/// Outside a sweep one verdict that a memory in force is corrected or updated
/// replaces it in the store where the model is as sure as configured, and leaves
/// every memory as it was where it is not.
pub proof fn law_sure_verdict_replaces(
    s: &mut Store,
    new_id: &str,
    candidates: &Vec<Candidate>,
    verdicts: &Vec<Verdict>,
    cfg: &AdjudicateConfig,
    ts: i64,
    r: Result<String, String>,
)
    requires
        call_ensures(
            Store::apply_verdicts,
            (s, new_id, candidates, verdicts, cfg, false, ts),
            r,
        ),
        verdicts@.len() == 1,
        1 <= verdicts@[0].candidate <= candidates@.len(),
        candidates_view(candidates@)[verdicts@[0].candidate - 1].lifecycle == "active"@,
        verdicts@[0].relation@ == "corrects"@ || verdicts@[0].relation@ == "updates"@,
    ensures
        ({
            let v = verdicts@[0];
            let c = candidates_view(candidates@)[v.candidate - 1];
            &&& sureness(v) >= cfg.auto_threshold.key && r is Ok ==> {
                let n = final(s)@.get(c.id);
                n is Some && n->0.lifecycle == "superseded"@ && n->0.superseded_by == Some(new_id@)
            }
            &&& sureness(v) >= cfg.auto_threshold.key ==> (r is Ok <==> c.id != new_id@ && old(
                s,
            )@.get(c.id) is Some && old(s)@.get(new_id@) is Some)
            &&& sureness(v) < cfg.auto_threshold.key && cfg.queue_threshold.key
                <= cfg.auto_threshold.key ==> r is Ok && final(s)@.memories == old(s)@.memories
        }),
{
    let v = verdicts@[0];
    let cs = candidates_view(candidates@);
    assert(verdicts@ =~= seq![v]);
    law_one_verdict_is_applied(
        old(s)@,
        new_id@,
        cs,
        v,
        cfg.auto_threshold,
        cfg.queue_threshold,
        false,
        ts,
    );
    law_sure_verdict_supersedes(
        old(s)@,
        new_id@,
        cs,
        v,
        cfg.auto_threshold,
        cfg.queue_threshold,
        ts,
    );
}

/// A session is given as many memories of projects as asked for, but at least
/// five, and half as many of references, but at least three.
pub proof fn law_session_limits(limit: usize, r: (usize, usize))
    requires
        call_ensures(context_limits, (limit,), r),
    ensures
        r.0 >= 5 && r.0 >= limit && (r.0 == 5 || r.0 == limit),
        r.1 >= 3 && 2 * r.1 + 1 >= limit && (r.1 == 3 || 2 * r.1 <= limit),
{
}

/// The two tiers are known by their names, and no other is.
pub proof fn law_tier_by_its_name(tier: &str, r: Result<Tier, String>)
    requires
        call_ensures(parse_tier, (tier,), r),
    ensures
        r is Ok <==> tier@ == "identity"@ || tier@ == "full"@,
        r is Ok && tier@ == "identity"@ ==> r->Ok_0 is Identity,
        r is Ok && tier@ == "full"@ ==> r->Ok_0 is Full,
{
    reveal_strlit("identity");
    reveal_strlit("full");
    assert("identity"@.len() == 8 && "full"@.len() == 4);
}

/// The body of a memory is a file's before it is the standard input's, and that
/// before the text as it was given.
pub proof fn law_body_comes_from(
    content: &Option<String>,
    content_file: &Option<String>,
    r: ContentSource,
)
    requires
        call_ensures(content_source, (content, content_file), r),
    ensures
        content_file is Some <==> r is File,
        content_file is Some ==> r->File_0@ == content_file->0@,
        content_file is None && content is Some && content->0@ == "-"@ ==> r is Stdin,
        content_file is None && content is Some && content->0@ != "-"@ ==> r is Inline
            && r->Inline_0@ == content->0@,
        content_file is None && content is None ==> r is Absent,
{
}

/// Before a call is sent on, the body of a memory that is added or changed is
/// asked for where the arguments name a file or the standard input, the file
/// first; other tools' arguments go as they are.
pub proof fn law_forwarded_body_comes_from(tool: &str, arguments: &JsonObject, r: BodySource)
    requires
        call_ensures(body_source, (tool, arguments), r),
    ensures
        ({
            let m = arguments.map();
            let bodied = tool@ == "memory_add"@ || tool@ == "memory_update"@;
            let file = m.contains_key("content_file"@);
            let dash = m.contains_key("content"@) && m["content"@] == JsonV::Str("-"@);
            &&& r is File <==> bodied && file && m["content_file"@] is Str
            &&& r is File ==> m["content_file"@] == JsonV::Str(r->File_0@)
            &&& r is BadPath <==> bodied && file && !(m["content_file"@] is Str)
            &&& r is Stdin <==> bodied && !file && dash
        }),
{
}

/// The body that was read takes the place of where it was to be read; a blank one
/// is refused, and every other argument stays.
pub proof fn law_forwarded_body_is_put_in(
    tool: &str,
    arguments: &JsonObject,
    body: &str,
    r: Result<JsonObject, String>,
    key: Seq<char>,
)
    requires
        call_ensures(inline_memory_body, (tool, arguments, body), r),
        tool@ == "memory_add"@ || tool@ == "memory_update"@,
        arguments.map().contains_key("content_file"@),
        arguments.map()["content_file"@] is Str,
    ensures
        r is Ok <==> !blank(body@),
        r is Ok ==> {
            let m = r->Ok_0.map();
            &&& m.contains_key("content"@) && m["content"@] == JsonV::Str(body@)
            &&& !m.contains_key("content_file"@)
            &&& key != "content"@ && key != "content_file"@ ==> m.contains_key(key)
                == arguments.map().contains_key(key) && m[key] == arguments.map()[key]
        },
{
    reveal_strlit("content");
    reveal_strlit("content_file");
    assert("content"@.len() == 7 && "content_file"@.len() == 12);
}

/// Where a server cannot be reached a read falls back to the local store and a
/// write is refused; an error that the server gave stands.
pub proof fn law_unreachable_write_is_refused(
    url: &str,
    tool: &str,
    reachable: bool,
    r: AfterFailure,
)
    requires
        call_ensures(after_failure, (url, tool, reachable), r),
    ensures
        r is Propagate <==> reachable,
        r is Refuse <==> !reachable && mutates(tool@),
        r is FallBackLocal <==> !reachable && !mutates(tool@),
{
}

/// A walk goes into every directory that is not excluded, as deep as allowed, and
/// takes every file with a wanted extension that is not excluded, and nothing
/// else.
pub proof fn law_walk_takes_what_is_wanted(
    kind: EntryKind,
    rel: &str,
    ext: &Option<String>,
    depth: usize,
    max_depth: usize,
    extensions: &Vec<String>,
    excludes: &Vec<String>,
    r: WalkStep,
)
    requires
        call_ensures(walk_step, (kind, rel, ext, depth, max_depth, extensions, excludes), r),
        !rel@.contains('\\'),
    ensures
        ({
            let excluded = any_glob(texts(excludes@), rel@);
            let wanted = ext is Some && exists|i: int|
                0 <= i < extensions@.len() && ascii_lower((#[trigger] extensions@[i])@)
                    == ascii_lower(ext->0@);
            &&& r is Take <==> kind is File && wanted && !excluded
            &&& r is Descend <==> kind is Directory && !excluded && depth < max_depth
            &&& r is TooDeep <==> kind is Directory && !excluded && depth >= max_depth
        }),
{
    lemma_slashes_stay(rel@);
    let es = texts(extensions@);
    if ext is Some {
        if exists|i: int|
            0 <= i < es.len() && ascii_lower(#[trigger] es[i]) == ascii_lower(ext->0@) {
            let i = choose|i: int|
                0 <= i < es.len() && ascii_lower(#[trigger] es[i]) == ascii_lower(ext->0@);
            assert(ascii_lower(extensions@[i]@) == ascii_lower(ext->0@));
        }
        if exists|i: int|
            0 <= i < extensions@.len() && ascii_lower((#[trigger] extensions@[i])@) == ascii_lower(
                ext->0@,
            ) {
            let i = choose|i: int|
                0 <= i < extensions@.len() && ascii_lower((#[trigger] extensions@[i])@)
                    == ascii_lower(ext->0@);
            assert(ascii_lower(es[i]) == ascii_lower(ext->0@));
        }
    }
}

/// A path without backslashes stays.
proof fn lemma_slashes_stay(s: Seq<char>)
    requires
        !s.contains('\\'),
    ensures
        crate::text::replaced(s, '\\', "/"@) == s,
    decreases s.len(),
{
    if s.len() == 0 {
        assert(crate::text::replaced(s, '\\', "/"@) =~= s);
    } else {
        let t = s.drop_last();
        assert(!t.contains('\\')) by {
            if t.contains('\\') {
                let i = choose|i: int| 0 <= i < t.len() && t[i] == '\\';
                assert(s[i] == '\\');
            }
        }
        lemma_slashes_stay(t);
        assert(s[s.len() - 1] != '\\');
        assert(t + seq![s.last()] =~= s);
    }
}

/// A peer registers again unless it has a lease and the last refresh says that it
/// lives on.
pub proof fn law_only_a_living_lease_is_kept(
    lease: &Option<String>,
    answer: &Option<Json>,
    again: bool,
)
    requires
        call_ensures(hold_step, (lease, answer), again),
    ensures
        lease is None ==> again,
        answer is None ==> again,
        lease is Some && answer is Some ==> again == !lease_alive(answer->0.tree()),
{
}

/// Between refreshes a third of the lease's life passes, or two seconds where
/// that is longer.
pub proof fn law_refresh_interval(ttl_s: u64, r: u64)
    requires
        call_ensures(refresh_interval_s, (ttl_s,), r),
    ensures
        r >= 2,
        3 * r + 2 >= ttl_s,
        r > 2 ==> 3 * r <= ttl_s,
        ttl_s >= 5 ==> r < ttl_s,
{
}

/// The answer to a poll is waited for ten seconds longer than the server itself
/// waits.
pub proof fn law_poll_outwaits_the_server(timeout_ms: u64, r: u64)
    requires
        timeout_ms + 10_000 <= u64::MAX,
        call_ensures(poll_wait_ms, (timeout_ms,), r),
    ensures
        r - timeout_ms == 10_000,
{
}

/// The endpoint of a dialogue is the flag's, else the setting, else the local one.
pub proof fn law_dialogue_endpoint(url: &Option<String>, s: &Settings, r: String)
    requires
        call_ensures(endpoint, (url, s), r),
    ensures
        ({
            let set = s@.setting("dialogue"@, "url"@, "AGENT_DIALOGUE_URL"@);
            &&& url is Some ==> r@ == url->0@
            &&& url is None && set is Some ==> r@ == set->0
            &&& url is None && set is None ==> r@ == "http://localhost:7740/mcp"@
        }),
{
}

/// The store lies where the environment says, else below the home directory, else
/// below the current one.
pub proof fn law_store_lies_where_told(s: &Settings, r: String)
    requires
        call_ensures(db_path, (s,), r),
    ensures
        s@.var("AGENT_DB"@) is Some ==> r@ == s@.var("AGENT_DB"@)->0,
        s@.var("AGENT_DB"@) is None && s@.var("HOME"@) is Some ==> r@ == s@.var("HOME"@)->0
            + "/.local/share/agent.sqlite"@,
        s@.var("AGENT_DB"@) is None && s@.var("HOME"@) is None ==> r@
            == "./.local/share/agent.sqlite"@,
{
}

/// A text is embedded anew unless the hash that is stored is that of the text.
pub proof fn law_changed_text_is_embedded_anew(
    stored: &Option<String>,
    text: &str,
    r: bool,
)
    requires
        call_ensures(needs_embedding, (stored, text), r),
    ensures
        stored is None ==> r,
        stored is Some ==> r == (stored->0@ != hex(
            crate::embed::sha256_of(vstd::utf8::encode_utf8(text@)),
        )),
{
}

/// A single run is embedded by the primary embedder, or by the one that needs no
/// service where that is not configured.
pub proof fn law_single_run_embedder(s: &Settings, r: ChainLink)
    requires
        call_ensures(select_embedder, (s,), r),
    ensures
        primary_embedder(s@) is Some ==> r@ == LinkV::Service(primary_embedder(s@)->0),
        primary_embedder(s@) is None ==> r@ is Mock,
{
}

/// Another key is tried exactly after a refusal for want of authority and where
/// the configured key is another one; it is then that key.
pub proof fn law_other_key_is_tried(
    e: &OpenRouterEmbedder,
    s: &Settings,
    failure: &str,
    r: Option<String>,
)
    requires
        call_ensures(OpenRouterEmbedder::retry_key, (e, s, failure), r),
    ensures
        ({
            let k = s@.configured("openrouter"@, "api_key"@);
            &&& r is Some <==> contains(failure@, "HTTP 401"@) && k is Some && k->0 != e.api_key@
            &&& r is Some ==> r->0@ == k->0
        }),
{
}

/// A search that stands in for a recall asks the same.
pub proof fn law_fallback_asks_the_same(args: &RecallArgs, r: SearchArgs)
    requires
        call_ensures(fallback_search, (args,), r),
    ensures
        r.query@ == args.query@ && r.limit == args.k && r.author is None,
        r.type_ is Some <==> args.type_ is Some,
        r.type_ is Some ==> r.type_->0@ == args.type_->0@,
        r.scope is Some <==> args.scope is Some,
        r.scope is Some ==> r.scope->0@ == args.scope->0@,
{
}

/// Batches go on until everything was in one: each holds as many as asked for, the
/// last what is left, and none is empty.
pub proof fn law_batches_cover_everything(from: usize, total: usize, batch: usize, r: usize)
    requires
        from < total,
        call_ensures(batch_end, (from, total, batch), r),
    ensures
        from < r <= total,
        batch > 0 ==> r - from <= batch && (r == total || r - from == batch),
        batch == 0 ==> r == from + 1,
{
}

/// A span of days starts that many times a day's seconds before now.
pub proof fn law_span_of_days(now: i64, days: u32, a: i64, b: i64)
    requires
        now - days * 86400 >= i64::MIN,
        call_ensures(cutoff, (now, days), a),
        call_ensures(days_before, (now, days as i64), b),
    ensures
        now - a == days * 86400,
        a == b,
{
}

/// The answer to a call is the command's output, and an error with both streams
/// exactly where the command failed.
pub proof fn law_call_answer_is_the_output(
    success: bool,
    stdout: &str,
    stderr: &str,
    r: (bool, String),
)
    requires
        call_ensures(call_answer, (success, stdout, stderr), r),
    ensures
        r.0 <==> !success,
        success ==> r.1@ == stdout@,
        !success ==> {
            let lead = "agent exited non-zero.\n--- stdout ---\n"@;
            let t = "\n--- stderr ---\n"@ + stderr@;
            &&& r.1@.take(lead.len() as int) == lead
            &&& r.1@ == lead + stdout@ + t
        },
{
    let lead = "agent exited non-zero.\n--- stdout ---\n"@;
    if !success {
        assert(r.1@.take(lead.len() as int) =~= lead);
        assert(r.1@ =~= lead + stdout@ + ("\n--- stderr ---\n"@ + stderr@));
    }
}

} // verus!
