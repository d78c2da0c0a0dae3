//! What the JSON that comes in and goes out owes: which answer of a service
//! counts, and that what is written can be read back field by field.
use crate::adjudicate::{
    chat_text, first_of, ids_at, limit_or, proposal, proposals, CandidateV, Verdict,
};
use crate::context::returned_list;
use crate::dialogue::{answer_messages, message_line, message_lines};
use crate::dialogue_presence::{id_in, presence_value};
use crate::history::{
    conflict_json, diff_json, event_json, is_field_list, patch_json, ChangeV,
};
use crate::json::{
    array_field, field, int_number, json_parsed, json_text, str_field, texts_json, unsigned_number,
    JsonV,
};
use crate::kx::{day_shown, pointer, report_json, SourceReport};
use crate::kx_query::{found_json, listed_json, recalled_json};
use crate::mcp::{
    answer_result, first_text, last_data, payload_of, result_text, AnswerErrorV,
};
use crate::migrate::{import_dir, import_id};
use crate::recall::{hit_json, recall_json, HitV};
use crate::rows::{memory_json, MemoryV};
use crate::settings::SettingsV;
use crate::store::{ConflictV, EventV, Rank, StoreV};
use crate::text::{after_prefix, ends, lines, skip_white, split_on, starts, trimmed};
use crate::text_laws::law_prefix_and_rest;
use vstd::prelude::*;

verus! {

/// Of a stream of events the last line of data counts, without white space round
/// it; lines of another kind do not matter.
pub proof fn law_last_data_line_counts(ls: Seq<Seq<char>>, d: Seq<char>, l: Seq<char>)
    ensures
        last_data(ls.push("data:"@ + d)) == Some(trimmed(d)),
        after_prefix(l, "data:"@) is None ==> last_data(ls.push(l)) == last_data(ls),
        last_data(Seq::empty()) is None,
{
    law_prefix_and_rest("data:"@ + d, "data:"@, d);
    assert(ls.push("data:"@ + d).last() == "data:"@ + d);
    assert(ls.push(l).drop_last() =~= ls);
    assert(ls.push(l).last() == l);
}

/// What an answer carries is its last line of data, or, where it has none, all of
/// it where it is an object; anything else carries nothing.
pub proof fn law_answer_carries_a_payload(body: Seq<char>)
    ensures
        ({
            let d = last_data(lines(body));
            let p = payload_of(body);
            &&& d is Some ==> p == d
            &&& d is None && starts(skip_white(body), "{"@) ==> p == Some(trimmed(body))
            &&& d is None && !starts(skip_white(body), "{"@) ==> p is None
        }),
{
}

/// A call succeeded exactly where the answer carries JSON that has a result and no
/// error; an error of the other side is told in its own words.
pub proof fn law_answer_is_its_result(body: Seq<char>)
    ensures
        ({
            let p = payload_of(body);
            let r = answer_result(body);
            &&& p is None ==> r == Err::<JsonV, AnswerErrorV>(AnswerErrorV::NoPayload)
            &&& p is Some && json_parsed(p->0) is None ==> r == Err::<JsonV, AnswerErrorV>(
                AnswerErrorV::NotJson,
            )
            &&& p is Some && json_parsed(p->0) is Some ==> {
                let e = json_parsed(p->0)->0;
                &&& r is Ok <==> field(e, "error"@) is None && field(e, "result"@) is Some
                &&& r is Ok ==> field(e, "result"@) == Some(r->Ok_0)
                &&& field(e, "error"@) is Some ==> r == Err::<JsonV, AnswerErrorV>(
                    AnswerErrorV::Remote("remote error: "@ + json_text(field(e, "error"@)->0)),
                )
                &&& field(e, "error"@) is None && field(e, "result"@) is None ==> r == Err::<
                    JsonV,
                    AnswerErrorV,
                >(AnswerErrorV::NoResult)
            }
        }),
{
}

/// The text of a result is that of its content, and nothing where it has none.
pub proof fn law_result_text_is_its_content(t: JsonV)
    ensures
        array_field(t, "content"@) is Some ==> result_text(t) == first_text(
            array_field(t, "content"@)->0,
        ),
        array_field(t, "content"@) is None ==> result_text(t).len() == 0,
{
}

/// What a model said is the content of the message of its first choice.
pub proof fn law_first_choice_counts(t: JsonV, a: Seq<JsonV>, m: JsonV, s: Seq<char>)
    requires
        array_field(t, "choices"@) == Some(a),
        a.len() > 0,
    ensures
        field(a[0], "message"@) == Some(m) && str_field(m, "content"@) == Some(s) ==> chat_text(t)
            == Some(s),
        chat_text(t) is Some ==> field(a[0], "message"@) is Some && str_field(
            field(a[0], "message"@)->0,
            "content"@,
        ) == chat_text(t),
{
}

/// Every message of an answer is told, one line each and in order; an answer that
/// is no JSON or has none tells nothing.
pub proof fn law_every_message_is_told(t: JsonV, ms: Seq<JsonV>, i: int)
    requires
        array_field(t, "messages"@) == Some(ms),
        0 <= i < ms.len(),
    ensures
        answer_messages(Some(t)) == ms,
        message_lines(ms).len() == ms.len(),
        message_lines(ms)[i] == message_line(ms[i]),
        answer_messages(None).len() == 0,
{
}

/// An id in an answer is its text, unless that is empty or zero.
pub proof fn law_id_in_an_answer(t: JsonV, key: Seq<char>, s: Seq<char>)
    ensures
        str_field(t, key) == Some(s) && s.len() > 0 && s != "0"@ ==> id_in(t, key) == Some(s),
        str_field(t, key) == Some(s) && (s.len() == 0 || s == "0"@) ==> id_in(t, key) is None,
        field(t, key) is None ==> id_in(t, key) is None,
{
}

/// A peer is registered under its id, in the role that stands before the colon,
/// with the time.
pub proof fn law_presence_says_who_and_when(peer: Seq<char>, now_ms: i64)
    ensures
        str_field(presence_value(peer, now_ms), "peer_id"@) == Some(peer),
        str_field(presence_value(peer, now_ms), "role"@) == Some(split_on(peer, ':')[0]),
        field(presence_value(peer, now_ms), "registered_at_unix_ms"@) == Some(
            JsonV::Number(int_number(now_ms)),
        ),
{
    reveal_strlit("peer_id");
    reveal_strlit("role");
    reveal_strlit("registered_at_unix_ms");
    assert("peer_id"@.len() == 7 && "role"@.len() == 4 && "registered_at_unix_ms"@.len() == 21);
}

/// A file is imported under its name without the ending; the index of the files
/// and files of another kind are not.
pub proof fn law_file_is_known_by_its_name(id: Seq<char>, name: Seq<char>)
    ensures
        id.len() > 0 && id != "MEMORY"@ ==> import_id(id + ".md"@) == Some(id),
        import_id("MEMORY.md"@) is None,
        !ends(name, ".md"@) ==> import_id(name) is None,
{
    reveal_strlit(".md");
    reveal_strlit("MEMORY.md");
    reveal_strlit("MEMORY");
    let n = id + ".md"@;
    assert(n.subrange(n.len() - 3, n.len() - 3 + 3) =~= ".md"@);
    assert(n.take(n.len() - 3) =~= id);
    if n == "MEMORY.md"@ {
        assert("MEMORY.md"@.take(6) =~= "MEMORY"@);
        assert(n.len() == 9);
    }
}

/// Files are imported from the directory that is named.
pub proof fn law_named_directory_is_imported(d: Seq<char>, usual: Seq<char>, s: SettingsV)
    ensures
        import_dir(Some(d), usual, s) == d,
{
}

/// The first of some ids in an order are the ids at its first places, as many as
/// asked for or as there are.
pub proof fn law_first_in_order(ids: Seq<Seq<char>>, order: Seq<usize>, n: nat, i: int)
    requires
        0 <= i < n,
        i < order.len(),
    ensures
        first_of(ids, order, n)[i] == ids[order[i] as int],
        first_of(ids, order, n).len() <= n,
        n <= order.len() ==> first_of(ids, order, n).len() == n,
        n > order.len() ==> first_of(ids, order, n).len() == order.len(),
{
}

/// Without a limit everything is taken, with one as many as it says; and what is
/// taken is told by the ids at its places.
pub proof fn law_limit_is_what_is_asked(n: usize, all: nat, ms: Seq<MemoryV>, at: Seq<int>, i: int)
    requires
        0 <= i < at.len(),
    ensures
        limit_or(None, all) == all,
        limit_or(Some(n), all) == n,
        ids_at(ms, at).len() == at.len(),
        ids_at(ms, at)[i] == ms[at[i]].id,
{
}

/// A trial tells every proposal in turn.
pub proof fn law_every_proposal_is_told(
    vs: Seq<Verdict>,
    v: Verdict,
    cs: Seq<CandidateV>,
    auto: Rank,
    queue: Rank,
)
    ensures
        proposal(v, cs, auto, queue) is Some ==> proposals(vs.push(v), cs, auto, queue) == proposals(
            vs,
            cs,
            auto,
            queue,
        ).push(proposal(v, cs, auto, queue)->0),
        proposal(v, cs, auto, queue) is None ==> proposals(vs.push(v), cs, auto, queue) == proposals(
            vs,
            cs,
            auto,
            queue,
        ),
        proposals(Seq::empty(), cs, auto, queue).len() == 0,
{
    assert(vs.push(v).drop_last() =~= vs);
    assert(vs.push(v).last() == v);
}

/// The keys that are written are different.
proof fn lemma_keys()
    ensures
        "id"@.len() == 2 && "id"@[0] == 'i',
        "ts"@.len() == 2 && "ts"@[0] == 't',
        "type"@.len() == 4 && "type"@[0] == 't',
        "name"@.len() == 4 && "name"@[0] == 'n',
        "tags"@.len() == 4 && "tags"@[0] == 't' && "tags"@[1] == 'a' && "type"@[1] == 'y',
        "date"@.len() == 4 && "date"@[0] == 'd',
        "path"@.len() == 4 && "path"@[0] == 'p',
        "actor"@.len() == 5 && "actor"@[0] == 'a' && "actor"@[1] == 'c',
        "score"@.len() == 5 && "score"@[0] == 's' && "score"@[2] == 'o',
        "trust"@.len() == 5 && "trust"@[0] == 't',
        "scope"@.len() == 5 && "scope"@[0] == 's' && "scope"@[3] == 'p' && "score"@[3] == 'r',
        "field"@.len() == 5 && "field"@[0] == 'f',
        "after"@.len() == 5 && "after"@[0] == 'a' && "after"@[1] == 'f',
        "model"@.len() == 5 && "model"@[0] == 'm',
        "query"@.len() == 5 && "query"@[0] == 'q',
        "error"@.len() == 5 && "error"@[0] == 'e',
        "before"@.len() == 6 && "before"@[0] == 'b',
        "action"@.len() == 6 && "action"@[0] == 'a',
        "author"@.len() == 6 && "author"@[0] == 'a' && "author"@[1] == 'u' && "action"@[1] == 'c',
        "cosine"@.len() == 6 && "cosine"@[0] == 'c',
        "reason"@.len() == 6 && "reason"@[0] == 'r',
        "source"@.len() == 6 && "source"@[0] == 's' && "source"@[1] == 'o',
        "status"@.len() == 6 && "status"@[0] == 's' && "status"@[1] == 't',
        "old_id"@.len() == 6 && "old_id"@[0] == 'o',
        "new_id"@.len() == 6 && "new_id"@[0] == 'n',
        "content"@.len() == 7 && "content"@[0] == 'c' && "content"@[1] == 'o',
        "changes"@.len() == 7 && "changes"@[1] == 'h',
        "results"@.len() == 7 && "results"@[0] == 'r',
        "event_id"@.len() == 8,
        "old_name"@.len() == 8 && "old_name"@[0] == 'o',
        "new_name"@.len() == 8 && "new_name"@[0] == 'n' && "event_id"@[0] == 'e',
        "relation"@.len() == 8 && "relation"@[0] == 'r',
        "lifecycle"@.len() == 9 && "lifecycle"@[0] == 'l',
        "memory_id"@.len() == 9 && "memory_id"@[0] == 'm',
        "is_active"@.len() == 9 && "is_active"@[0] == 'i',
        "rationale"@.len() == 9 && "rationale"@[0] == 'r',
        "conflicts"@.len() == 9 && "conflicts"@[0] == 'c',
        "created_at"@.len() == 10 && "created_at"@[0] == 'c' && "created_at"@[1] == 'r',
        "updated_at"@.len() == 10 && "updated_at"@[0] == 'u',
        "after_json"@.len() == 10 && "after_json"@[0] == 'a',
        "confidence"@.len() == 10 && "confidence"@[1] == 'o' && "confidence"@[0] == 'c',
        "valid_from"@.len() == 10 && "valid_from"@[0] == 'v',
        "verified_at"@.len() == 11 && "verified_at"@[0] == 'v',
        "before_json"@.len() == 11 && "before_json"@[0] == 'b',
        "description"@.len() == 11 && "description"@[0] == 'd',
        "diff_command"@.len() == 12,
        "source_report"@.len() == 13,
        "matched_via_superseded"@.len() == 22 && "matched_via_superseded"@[0] == 'm',
        "possible_conflict_with"@.len() == 22 && "possible_conflict_with"@[0] == 'p',
        "cwd"@.len() == 3,
{
    reveal_strlit("id");
    reveal_strlit("ts");
    reveal_strlit("type");
    reveal_strlit("name");
    reveal_strlit("tags");
    reveal_strlit("date");
    reveal_strlit("path");
    reveal_strlit("actor");
    reveal_strlit("score");
    reveal_strlit("trust");
    reveal_strlit("scope");
    reveal_strlit("field");
    reveal_strlit("after");
    reveal_strlit("model");
    reveal_strlit("query");
    reveal_strlit("error");
    reveal_strlit("before");
    reveal_strlit("action");
    reveal_strlit("author");
    reveal_strlit("cosine");
    reveal_strlit("reason");
    reveal_strlit("source");
    reveal_strlit("status");
    reveal_strlit("old_id");
    reveal_strlit("new_id");
    reveal_strlit("content");
    reveal_strlit("changes");
    reveal_strlit("results");
    reveal_strlit("event_id");
    reveal_strlit("old_name");
    reveal_strlit("new_name");
    reveal_strlit("relation");
    reveal_strlit("lifecycle");
    reveal_strlit("memory_id");
    reveal_strlit("is_active");
    reveal_strlit("rationale");
    reveal_strlit("conflicts");
    reveal_strlit("created_at");
    reveal_strlit("updated_at");
    reveal_strlit("after_json");
    reveal_strlit("confidence");
    reveal_strlit("valid_from");
    reveal_strlit("verified_at");
    reveal_strlit("before_json");
    reveal_strlit("description");
    reveal_strlit("diff_command");
    reveal_strlit("source_report");
    reveal_strlit("matched_via_superseded");
    reveal_strlit("possible_conflict_with");
    reveal_strlit("cwd");
}

/// A hit as JSON gives back the memory's own fields; its content exactly where
/// that was asked for, its similarity under crediting, and what it was found
/// through and may contradict where there is any.
pub proof fn law_hit_reads_back(m: MemoryV, h: HitV, v1: bool, full: bool)
    ensures
        ({
            let j = hit_json(m, h, v1, full);
            &&& str_field(j, "id"@) == Some(m.id)
            &&& str_field(j, "type"@) == Some(m.type_)
            &&& str_field(j, "name"@) == Some(m.name)
            &&& str_field(j, "description"@) == Some(m.description)
            &&& str_field(j, "tags"@) == Some(m.tags)
            &&& str_field(j, "lifecycle"@) == Some(m.lifecycle)
            &&& str_field(j, "author"@) == Some(m.author)
            &&& field(j, "score"@) == Some(h.score)
            &&& field(j, "updated_at"@) == Some(JsonV::Number(int_number(m.updated_at)))
            &&& field(j, "created_at"@) == Some(JsonV::Number(int_number(m.created_at)))
            &&& m.verified_at is None ==> field(j, "verified_at"@) == Some(JsonV::Null)
            &&& m.verified_at is Some ==> field(j, "verified_at"@) == Some(
                JsonV::Number(int_number(m.verified_at->0)),
            )
            &&& full ==> str_field(j, "content"@) == Some(m.content)
            &&& !full ==> field(j, "content"@) is None
            &&& v1 ==> field(j, "cosine"@) == Some(h.cosine)
            &&& !v1 ==> field(j, "cosine"@) is None
            &&& h.via is Some ==> str_field(j, "matched_via_superseded"@) == h.via
            &&& h.via is None ==> field(j, "matched_via_superseded"@) is None
            &&& h.conflicts.len() > 0 ==> field(j, "possible_conflict_with"@) == Some(
                texts_json(h.conflicts),
            )
            &&& h.conflicts.len() == 0 ==> field(j, "possible_conflict_with"@) is None
        }),
{
    lemma_keys();
}

/// What a recall answers names the model and the question and has every hit in
/// order; where nothing was found it says why.
pub proof fn law_recall_answers_every_hit(
    ms: Seq<MemoryV>,
    hs: Seq<HitV>,
    model: Seq<char>,
    query: Seq<char>,
    v1: bool,
    full: bool,
    i: int,
)
    requires
        0 <= i < hs.len(),
    ensures
        ({
            let j = recall_json(ms, hs, model, query, v1, full);
            let r = array_field(j, "results"@);
            &&& str_field(j, "model"@) == Some(model) && str_field(j, "query"@) == Some(query)
            &&& r is Some && r->0.len() == hs.len()
            &&& r->0[i] == hit_json(ms[hs[i].at], hs[i], v1, full)
            &&& field(j, "error"@) is None
        }),
        ({
            let j = recall_json(ms, Seq::empty(), model, query, v1, full);
            &&& array_field(j, "results"@) is Some && array_field(j, "results"@)->0.len() == 0
            &&& field(j, "error"@) is Some
        }),
{
    lemma_keys();
}

/// The log of a session keeps of every memory given which it was and its score, in
/// order.
pub proof fn law_given_memories_are_logged(ms: Seq<MemoryV>, scores: Seq<JsonV>, i: int)
    requires
        0 <= i < ms.len(),
    ensures
        ({
            let j = returned_list(ms, scores);
            &&& j is Array && j->Array_0.len() == ms.len()
            &&& str_field(j->Array_0[i], "id"@) == Some(ms[i].id)
            &&& str_field(j->Array_0[i], "name"@) == Some(ms[i].name)
            &&& field(j->Array_0[i], "score"@) == Some(scores[i])
        }),
{
    lemma_keys();
}

/// An entry of the log as JSON gives back what the log holds.
pub proof fn law_event_reads_back(id: Seq<char>, e: EventV)
    ensures
        ({
            let j = event_json(e);
            &&& field(j, "id"@) == Some(JsonV::Number(int_number(e.id)))
            &&& field(j, "ts"@) == Some(JsonV::Number(int_number(e.ts)))
            &&& str_field(j, "actor"@) == Some(e.actor)
            &&& str_field(j, "action"@) == Some(e.action)
            &&& str_field(j, "reason"@) == Some(e.reason)
            &&& str_field(j, "source_report"@) == Some(e.source_report)
            &&& e.before_json is Some ==> str_field(j, "before_json"@) == e.before_json
            &&& e.before_json is None ==> field(j, "before_json"@) == Some(JsonV::Null)
            &&& e.after_json is Some ==> str_field(j, "after_json"@) == e.after_json
            &&& e.after_json is None ==> field(j, "after_json"@) == Some(JsonV::Null)
        }),
        ({
            let j = patch_json(id, e);
            &&& field(j, "event_id"@) == Some(JsonV::Number(int_number(e.id)))
            &&& field(j, "ts"@) == Some(JsonV::Number(int_number(e.ts)))
            &&& str_field(j, "actor"@) == Some(e.actor)
            &&& str_field(j, "action"@) == Some(e.action)
            &&& str_field(j, "reason"@) == Some(e.reason)
            &&& str_field(j, "source_report"@) == Some(e.source_report)
            &&& str_field(j, "diff_command"@) == Some(
                "agent memory diff "@ + id + " --event "@ + crate::text::int_text(e.id as int),
            )
        }),
{
    lemma_keys();
}

/// What an entry changed, as JSON, names the entry and the memory and has every
/// change in order, with what was there before and after.
pub proof fn law_changes_read_back(id: Seq<char>, e: EventV, cs: Seq<ChangeV>, i: int)
    requires
        0 <= i < cs.len(),
    ensures
        ({
            let j = diff_json(id, e, cs);
            let c = array_field(j, "changes"@);
            &&& field(j, "event_id"@) == Some(JsonV::Number(int_number(e.id)))
            &&& str_field(j, "memory_id"@) == Some(id)
            &&& str_field(j, "actor"@) == Some(e.actor)
            &&& str_field(j, "action"@) == Some(e.action)
            &&& str_field(j, "reason"@) == Some(e.reason)
            &&& c is Some && c->0.len() == cs.len()
            &&& str_field(c->0[i], "field"@) == Some(cs[i].field)
            &&& field(c->0[i], "before"@) == Some(cs[i].before)
            &&& field(c->0[i], "after"@) == Some(cs[i].after)
        }),
{
    lemma_keys();
}

/// A conflict as JSON names both memories by id and name and gives back what was
/// judged.
pub proof fn law_conflict_reads_back(s: StoreV, c: ConflictV, conf: JsonV)
    requires
        s.get(c.old_id) is Some,
        s.get(c.new_id) is Some,
    ensures
        ({
            let j = conflict_json(s, c, conf);
            &&& field(j, "id"@) == Some(JsonV::Number(int_number(c.id)))
            &&& str_field(j, "old_id"@) == Some(c.old_id)
            &&& str_field(j, "new_id"@) == Some(c.new_id)
            &&& str_field(j, "old_name"@) == Some(s.get(c.old_id)->0.name)
            &&& str_field(j, "new_name"@) == Some(s.get(c.new_id)->0.name)
            &&& str_field(j, "relation"@) == Some(c.relation)
            &&& str_field(j, "rationale"@) == Some(c.rationale)
            &&& str_field(j, "status"@) == Some(c.status)
            &&& field(j, "confidence"@) == Some(conf)
            &&& field(j, "created_at"@) == Some(JsonV::Number(int_number(c.created_at)))
        }),
{
    lemma_keys();
}

/// A memory as JSON gives back its fields.
pub proof fn law_memory_reads_back(m: MemoryV)
    ensures
        ({
            let j = memory_json(m);
            &&& str_field(j, "id"@) == Some(m.id)
            &&& str_field(j, "type"@) == Some(m.type_)
            &&& str_field(j, "name"@) == Some(m.name)
            &&& str_field(j, "description"@) == Some(m.description)
            &&& str_field(j, "content"@) == Some(m.content)
            &&& str_field(j, "source"@) == Some(m.source)
            &&& str_field(j, "tags"@) == Some(m.tags)
            &&& str_field(j, "cwd"@) == Some(m.cwd)
            &&& str_field(j, "lifecycle"@) == Some(m.lifecycle)
            &&& field(j, "is_active"@) == Some(JsonV::Bool(m.is_active))
            &&& field(j, "created_at"@) == Some(JsonV::Number(int_number(m.created_at)))
            &&& field(j, "updated_at"@) == Some(JsonV::Number(int_number(m.updated_at)))
        }),
{
    lemma_keys();
}

/// An entry of the index as JSON gives back its fields and, where it was found,
/// the path that its content starts with.
pub proof fn law_entry_reads_back(m: MemoryV, h: HitV)
    ensures
        ({
            let f = found_json(m);
            let r = recalled_json(m, h);
            let l = listed_json(m);
            &&& str_field(f, "id"@) == Some(m.id) && str_field(r, "id"@) == Some(m.id) && str_field(
                l,
                "id"@,
            ) == Some(m.id)
            &&& str_field(f, "name"@) == Some(m.name) && str_field(r, "name"@) == Some(m.name)
                && str_field(l, "name"@) == Some(m.name)
            &&& str_field(f, "description"@) == Some(m.description) && str_field(r, "description"@)
                == Some(m.description) && str_field(l, "description"@) == Some(m.description)
            &&& str_field(f, "tags"@) == Some(m.tags) && str_field(r, "tags"@) == Some(m.tags)
                && str_field(l, "tags"@) == Some(m.tags)
            &&& str_field(f, "path"@) == Some(pointer(m.content)) && str_field(r, "path"@) == Some(
                pointer(m.content),
            )
            &&& field(r, "score"@) == Some(h.score) && field(r, "cosine"@) == Some(h.cosine)
            &&& str_field(l, "scope"@) == Some(m.scope)
            &&& m.valid_from is Some ==> field(f, "valid_from"@) == Some(
                JsonV::Number(int_number(m.valid_from->0)),
            )
            &&& m.valid_from is None ==> field(f, "valid_from"@) == Some(JsonV::Null)
        }),
{
    lemma_keys();
}

/// What was taken in of a corpus, as JSON, names the corpus and gives back the
/// counts; an entry's day is shown where it has one.
pub proof fn law_ingest_reads_back(r: SourceReport, m: MemoryV, h: HitV)
    ensures
        ({
            let j = report_json(r);
            &&& str_field(j, "path"@) == Some(r.path@)
            &&& field(j, "scanned"@) == Some(JsonV::Number(unsigned_number(r.scanned as u64)))
            &&& field(j, "inserted"@) == Some(JsonV::Number(unsigned_number(r.inserted as u64)))
            &&& field(j, "updated"@) == Some(JsonV::Number(unsigned_number(r.updated as u64)))
            &&& field(j, "skipped"@) == Some(JsonV::Number(unsigned_number(r.skipped as u64)))
        }),
        str_field(found_json(m), "date"@) == Some(day_shown(m.valid_from)),
        str_field(recalled_json(m, h), "date"@) == Some(day_shown(m.valid_from)),
        str_field(listed_json(m), "date"@) == Some(day_shown(m.valid_from)),
{
    lemma_keys();
    reveal_strlit("scanned");
    reveal_strlit("inserted");
    reveal_strlit("updated");
    reveal_strlit("skipped");
    assert("scanned"@.len() == 7 && "updated"@.len() == 7 && "skipped"@.len() == 7
        && "inserted"@.len() == 8);
    assert("scanned"@[1] == 'c' && "updated"@[1] == 'p' && "skipped"@[1] == 'k');
}

/// Without a directory files are imported from the usual one below the home
/// directory.
pub proof fn law_usual_directory_is_imported(home: Seq<char>, usual: Seq<char>, s: SettingsV)
    requires
        s.var("HOME"@) == Some(home),
        home.len() > 0,
        home.last() != '/',
        !starts(usual, "/"@),
    ensures
        import_dir(None, usual, s) == home + "/"@ + usual,
{
}

/// The fields that are compared are those that either side has, each once and in
/// order.
pub proof fn law_compared_fields(ks: Seq<Seq<char>>, a: JsonV, b: JsonV, k: Seq<char>)
    requires
        is_field_list(ks, a, b),
    ensures
        ks.contains(k) <==> field(a, k) is Some || field(b, k) is Some,
        forall|i: int, j: int|
            0 <= i < j < ks.len() ==> crate::text::text_before(
                #[trigger] ks[i],
                #[trigger] ks[j],
            ),
{
}

} // verus!
