//! What is read from files and models, and what is written for them, owes.
use crate::adjudicate::{
    adjudication, candidate_block, candidate_blocks, long_words, or_query, prompt_for, verdict_span,
    CandidateV,
};
use crate::context::{best, context_picks};
use crate::edit::{front_matter, in_kernel, last_field, membership, FrontMatterV};
use crate::embed::mock_stream;
use crate::json::{field, json_text, str_field, JsonV};
use crate::kernel::{identity_entry, ContextLogV};
use crate::kx::{like_escaped, slug_char, slug_of, slug_raw};
use crate::migrate::{import_line, import_outcome, with_import};
use crate::query::like;
use crate::recall::{logged_hit, HitV};
use crate::resolve::{
    annotated_hop, edge_between, hop_line, lookup, named_position, resolution_json,
    resolution_lines, HopV,
};
use crate::rows::{flag_json, opt_str_json, time_json, MemoryV};
use crate::settings::SettingsV;
use crate::store::{lemma_position, position, EdgeV, Rank, StoreV};
use crate::supersede::acting_author;
use crate::text::{
    after_prefix, ascii_lower, byte_len, decimal, drop_any, first_pos, int_text, joined, last_pos,
    lemma_find_from, lines, listed, lower_char, occurs_at, replaced, skip_any, skip_white, trimmed,
};
use crate::text_laws::{
    law_clipping_keeps_the_start, law_ends_are_taken_off, law_joining_goes_part_by_part,
    law_prefix_and_rest, law_replacing_goes_by_character,
};
use crate::tokens::{lowered, phrase, runs, tail_parts};
use vstd::prelude::*;

verus! {

/// Memories are judged exactly where that is not switched off and a model and an
/// endpoint are set, and then by those.
pub proof fn law_judging_needs_a_model(s: SettingsV)
    ensures
        ({
            let model = s.setting("adjudicate"@, "model"@, "AGENT_ADJUDICATE_MODEL"@);
            let url = s.setting("adjudicate"@, "base_url"@, "AGENT_ADJUDICATE_BASE_URL"@);
            let c = adjudication(s);
            &&& c is Some <==> s.var("AGENT_NO_ADJUDICATE"@) != Some("1"@) && model is Some
                && url is Some
            &&& c is Some ==> Some(c->0.model) == model && Some(c->0.base_url) == url
                && c->0.auto_threshold == s.configured("adjudicate"@, "auto_threshold"@)
                && c->0.queue_threshold == s.configured("adjudicate"@, "queue_threshold"@)
        }),
{
}

/// The words that are looked for are the runs of at least four bytes, in lower
/// case, each once.
pub proof fn law_long_words_are_looked_for(rs: Seq<Seq<char>>)
    ensures
        forall|k: int|
            0 <= k < rs.len() && byte_len(#[trigger] rs[k]) >= 4 ==> listed(
                long_words(rs),
                lowered(rs[k]),
            ),
        forall|i: int|
            0 <= i < long_words(rs).len() ==> exists|k: int|
                0 <= k < rs.len() && byte_len(#[trigger] rs[k]) >= 4 && (#[trigger] long_words(
                    rs,
                )[i]) == lowered(rs[k]),
        forall|i: int, j: int|
            0 <= i < j < long_words(rs).len() ==> #[trigger] long_words(rs)[i]
                != #[trigger] long_words(rs)[j],
    decreases rs.len(),
{
    if rs.len() > 0 {
        let prev = rs.drop_last();
        law_long_words_are_looked_for(prev);
        let init = long_words(prev);
        let v = long_words(rs);
        assert forall|k: int| 0 <= k < rs.len() && byte_len(#[trigger] rs[k]) >= 4 implies listed(
            v,
            lowered(rs[k]),
        ) by {
            if k < prev.len() {
                assert(prev[k] == rs[k]);
                let i = choose|i: int| 0 <= i < init.len() && #[trigger] init[i] == lowered(rs[k]);
                assert(v[i] == lowered(rs[k]));
            } else if listed(init, lowered(rs.last())) {
                let i = choose|i: int|
                    0 <= i < init.len() && #[trigger] init[i] == lowered(rs.last());
                assert(v[i] == lowered(rs[k]));
            } else {
                assert(v[v.len() - 1] == lowered(rs[k]));
            }
        }
        assert forall|i: int| 0 <= i < v.len() implies exists|k: int|
            0 <= k < rs.len() && byte_len(#[trigger] rs[k]) >= 4 && (#[trigger] v[i]) == lowered(
                rs[k],
            ) by {
            if i < init.len() {
                assert(v[i] == init[i]);
                let k = choose|k: int|
                    0 <= k < prev.len() && byte_len(#[trigger] prev[k]) >= 4 && init[i] == lowered(
                        prev[k],
                    );
                assert(rs[k] == prev[k]);
            } else {
                assert(v[i] == lowered(rs[rs.len() - 1]));
            }
        }
        assert forall|i: int, j: int| 0 <= i < j < v.len() implies #[trigger] v[i]
            != #[trigger] v[j] by {
            assert(v[i] == init[i]);
            if j < init.len() {
                assert(v[j] == init[j]);
            }
        }
    }
}

/// Any of the first eight words will do, each as a phrase.
pub proof fn law_any_of_the_words_will_do(text: Seq<char>, q: Seq<Seq<char>>)
    requires
        q.len() == (if long_words(runs(text)).len() < 8 {
            long_words(runs(text)).len()
        } else {
            8
        }),
        forall|k: int|
            0 <= k < q.len() ==> #[trigger] q[k] == phrase(long_words(runs(text))[k]),
    ensures
        or_query(text) == joined(q, " OR "@),
{
    let ws = long_words(runs(text));
    let first = if ws.len() > 8 {
        ws.take(8)
    } else {
        ws
    };
    assert(first.map_values(|w: Seq<char>| phrase(w)) =~= q);
}

/// What a text is shown by: its first six hundred characters.
proof fn lemma_excerpt(s: Seq<char>)
    ensures
        crate::adjudicate::excerpt_of(s) == s.take(
            (if s.len() < 600 {
                s.len() as int
            } else {
                600
            }),
        ),
{
    law_clipping_keeps_the_start(s, 600);
    assert(s.take(s.len() as int) =~= s);
}

/// A question shows every candidate in turn: its number, id, lifecycle, name,
/// description and the first six hundred characters of its content.
#[verifier::spinoff_prover]
pub proof fn law_question_shows_every_candidate(
    m: CandidateV,
    cs: Seq<CandidateV>,
    c: CandidateV,
)
    ensures
        ({
            let shown = c.content.take(
                (if c.content.len() < 600 {
                    c.content.len() as int
                } else {
                    600
                }),
            );
            let block = decimal(cs.len() + 1) + ". ["@ + c.id + "] (lifecycle: "@ + c.lifecycle
                + ") "@ + c.name + " — "@ + c.description + "\n   "@ + shown + "\n"@;
            prompt_for(m, cs.push(c)) == prompt_for(m, cs) + block
        }),
{
    lemma_excerpt(c.content);
    assert(cs.push(c).drop_last() =~= cs);
    assert(cs.push(c).last() == c);
    let block = candidate_block((cs.len() + 1) as nat, c);
    let lead = crate::adjudicate::instructions() + "NEW MEMORY:\nname: "@ + m.name
        + "\ndescription: "@ + m.description + "\ncontent: "@ + crate::adjudicate::excerpt_of(
        m.content,
    ) + "\n\nCANDIDATES:\n"@;
    lemma_longer(lead, candidate_blocks(cs), block);
}

/// Appending goes one after the other.
proof fn lemma_longer(a: Seq<char>, b: Seq<char>, c: Seq<char>)
    ensures
        a + (b + c) == (a + b) + c,
{
    assert(a + (b + c) =~= (a + b) + c);
}

/// A question shows the new memory before the candidates: its name, description
/// and the first six hundred characters of its content.
#[verifier::spinoff_prover]
pub proof fn law_question_shows_the_memory(m: CandidateV)
    ensures
        ({
            let shown = m.content.take(
                (if m.content.len() < 600 {
                    m.content.len() as int
                } else {
                    600
                }),
            );
            prompt_for(m, Seq::empty()) == crate::adjudicate::instructions()
                + "NEW MEMORY:\nname: "@ + m.name + "\ndescription: "@ + m.description
                + "\ncontent: "@ + shown + "\n\nCANDIDATES:\n"@ + Seq::empty()
        }),
{
    lemma_excerpt(m.content);
}

/// Where a character first stands.
proof fn lemma_first_at(a: Seq<char>, b: Seq<char>, c: char)
    requires
        !a.contains(c),
    ensures
        first_pos(a.push(c) + b, c) == a.len(),
    decreases a.len(),
{
    let s = a.push(c) + b;
    if a.len() > 0 {
        let t = a.drop_first();
        assert(a[0] != c);
        assert(!t.contains(c)) by {
            if t.contains(c) {
                let i = choose|i: int| 0 <= i < t.len() && t[i] == c;
                assert(a[i + 1] == c);
            }
        }
        lemma_first_at(t, b, c);
        assert(s.drop_first() =~= t.push(c) + b);
    }
}

/// Where a character last stands.
proof fn lemma_last_at(a: Seq<char>, b: Seq<char>, c: char)
    requires
        !b.contains(c),
    ensures
        last_pos(a.push(c) + b, c) == a.len(),
    decreases b.len(),
{
    let s = a.push(c) + b;
    if b.len() == 0 {
        assert(s =~= a.push(c));
    } else {
        let t = b.drop_last();
        assert(b[b.len() - 1] != c);
        assert(!t.contains(c)) by {
            if t.contains(c) {
                let i = choose|i: int| 0 <= i < t.len() && t[i] == c;
                assert(b[i] == c);
            }
        }
        lemma_last_at(a, t, c);
        assert(s.drop_last() =~= a.push(c) + t);
    }
}

/// A character that does not stand in a text has no position in it.
proof fn lemma_nowhere(s: Seq<char>, c: char)
    requires
        !s.contains(c),
    ensures
        first_pos(s, c) == s.len(),
        last_pos(s, c) == -1,
    decreases s.len(),
{
    if s.len() > 0 {
        assert(s[0] != c && s[s.len() - 1] != c);
        let t = s.drop_first();
        let u = s.drop_last();
        assert(!t.contains(c)) by {
            if t.contains(c) {
                let i = choose|i: int| 0 <= i < t.len() && t[i] == c;
                assert(s[i + 1] == c);
            }
        }
        assert(!u.contains(c)) by {
            if u.contains(c) {
                let i = choose|i: int| 0 <= i < u.len() && u[i] == c;
                assert(s[i] == c);
            }
        }
        lemma_nowhere(t, c);
        lemma_nowhere(u, c);
    }
}

/// The verdicts of a model are found whatever it says before and after them: all
/// from the first opening bracket to the last closing one. Without brackets
/// there are none.
pub proof fn law_verdicts_are_found(a: Seq<char>, mid: Seq<char>, b: Seq<char>)
    requires
        !a.contains('['),
        !b.contains(']'),
    ensures
        verdict_span(a + (seq!['['] + mid).push(']') + b) == Ok::<Seq<char>, Seq<char>>(
            (seq!['['] + mid).push(']'),
        ),
        verdict_span(a) is Err,
        verdict_span(b) is Err,
{
    let span = (seq!['['] + mid).push(']');
    let raw = a + span + b;
    lemma_first_at(a, mid.push(']') + b, '[');
    assert(raw =~= a.push('[') + (mid.push(']') + b));
    lemma_last_at(a.push('[') + mid, b, ']');
    assert(raw =~= (a.push('[') + mid).push(']') + b);
    assert(raw.subrange(a.len() as int, (a.len() + span.len()) as int) =~= span);
    lemma_nowhere(a, '[');
    lemma_nowhere(b, ']');
}

/// The last line that gives a field decides, without white space round the value;
/// lines that do not give it do not matter.
pub proof fn law_last_line_of_a_field_decides(
    ls: Seq<Seq<char>>,
    l: Seq<char>,
    prefix: Seq<char>,
    v: Seq<char>,
)
    ensures
        last_field(ls.push(prefix + v), prefix) == trimmed(v),
        after_prefix(l, prefix) is None ==> last_field(ls.push(l), prefix) == last_field(ls, prefix),
        last_field(Seq::empty(), prefix).len() == 0,
{
    law_prefix_and_rest(prefix + v, prefix, v);
    assert(ls.push(prefix + v).last() == prefix + v);
    assert(ls.push(l).drop_last() =~= ls);
    assert(ls.push(l).last() == l);
}

/// A file with front matter gives back the fields of the lines between its dashes
/// and all of the text behind them; where a field is missing or empty it gives
/// nothing.
pub proof fn law_front_matter_is_read(head: Seq<char>, body: Seq<char>)
    requires
        head.len() > 0,
        head[0] != '\n',
        forall|i: int| 0 <= i < head.len() ==> !occurs_at(head + "\n---"@, "\n---"@, i),
        body.len() > 0 ==> body[0] != '\n',
    ensures
        ({
            let r = front_matter("---\n"@ + head + "\n---\n"@ + body);
            let t = last_field(lines(head), "type:"@);
            let n = last_field(lines(head), "name:"@);
            let d = last_field(lines(head), "description:"@);
            &&& r is Some <==> t.len() > 0 && n.len() > 0 && d.len() > 0
            &&& r is Some ==> r->0.type_ == t && r->0.name == n && r->0.description == d
                && r->0.body == body
        }),
{
    reveal_strlit("---\n");
    reveal_strlit("\n---\n");
    reveal_strlit("\n---");
    reveal_strlit("---");
    reveal_strlit("\n");
    let raw = "---\n"@ + head + "\n---\n"@ + body;
    let rest = head + "\n---\n"@ + body;
    assert(raw[0] == '-');
    assert(skip_white(raw) == raw);
    let r = seq!['\n'] + rest;
    assert(raw =~= "---"@ + r);
    law_prefix_and_rest(raw, "---"@, r);
    assert("\n"@ =~= seq!['\n']);
    assert("\n"@[0] == '\n');
    assert("\n"@.contains('\n'));
    assert(r.drop_first() =~= rest);
    assert(rest[0] == head[0]);
    assert(!"\n"@.contains(head[0]));
    assert(skip_any(rest, "\n"@) == rest);
    assert(skip_any(r, "\n"@) == rest);
    let n = head.len() as int;
    let m = "\n---"@;
    assert(m.len() == 4);
    assert(rest.subrange(n, n + 4) =~= m);
    assert(occurs_at(rest, m, n));
    lemma_find_from(rest, m, 0);
    let found = crate::text::find_from(rest, m, 0);
    assert(found is Some);
    let end = found->0;
    assert(end == n) by {
        if end < n {
            assert(occurs_at(rest, m, end));
            assert(rest.subrange(end, end + 4) =~= (head + m).subrange(end, end + 4));
            assert(occurs_at(head + m, m, end));
        }
    }
    assert(rest.take(end) =~= head);
    let tail = seq!['\n'] + body;
    assert(rest.skip(end + 4) =~= tail);
    assert(tail.drop_first() =~= body);
    if body.len() > 0 {
        assert(!"\n"@.contains(body[0]));
    }
    assert(skip_any(body, "\n"@) == body);
    assert(skip_any(tail, "\n"@) == body);
}

/// A file without front matter is unreadable; one whose id is taken is left, but
/// for a dry run, which takes nothing; any other becomes a memory of the store,
/// beside those that were there.
pub proof fn law_file_becomes_a_memory(
    s: StoreV,
    id: Seq<char>,
    raw: Seq<char>,
    f: FrontMatterV,
    dry_run: bool,
    ts: i64,
)
    ensures
        import_outcome(s, id, raw, dry_run) is Unreadable <==> front_matter(raw) is None,
        import_outcome(s, id, raw, dry_run) is Taken <==> front_matter(raw) is Some && !dry_run
            && exists|i: int| 0 <= i < s.memories.len() && (#[trigger] s.memories[i]).id == id,
        ({
            let t = with_import(s, id, f, ts);
            let m = t.memories.last();
            &&& t.memories == s.memories.push(m)
            &&& m.id == id && m.type_ == f.type_ && m.name == f.name && m.description
                == f.description && m.content == f.body
            &&& m.created_at == ts && m.is_active && m.lifecycle == "active"@
            &&& t.edges == s.edges && t.events == s.events
        }),
        import_line(id, f, false) == "imported: ["@ + id + "] ("@ + f.type_ + ") "@ + f.name,
        import_line(id, f, true) == "would import: ["@ + id + "] ("@ + f.type_ + ") "@ + f.name,
{
    lemma_position(s.memories, id);
    if exists|i: int| 0 <= i < s.memories.len() && (#[trigger] s.memories[i]).id == id {
        let i = choose|i: int| 0 <= i < s.memories.len() && (#[trigger] s.memories[i]).id == id;
        assert(position(s.memories, id) is Some);
    }
}

/// The one that acts is the one the environment names as author, else its
/// profile, else nobody.
pub proof fn law_who_acts(s: SettingsV)
    ensures
        s.var("AGENT_AUTHOR"@) is Some ==> acting_author(s) == s.var("AGENT_AUTHOR"@)->0,
        s.var("AGENT_AUTHOR"@) is None && s.var("CLAUDE_PROFILE"@) is Some ==> acting_author(s)
            == s.var("CLAUDE_PROFILE"@)->0,
        s.var("AGENT_AUTHOR"@) is None && s.var("CLAUDE_PROFILE"@) is None ==> acting_author(
            s,
        ).len() == 0,
{
}

/// A memory that a key means has the key as its id, or, where none has, it is the
/// first with that name; a key means none only where none has it.
pub proof fn law_key_means_id_before_name(ms: Seq<MemoryV>, key: Seq<char>)
    ensures
        match lookup(ms, key) {
            Some(i) => {
                &&& 0 <= i < ms.len()
                &&& ms[i].id == key || {
                    &&& ms[i].name == key
                    &&& forall|k: int| 0 <= k < ms.len() ==> (#[trigger] ms[k]).id != key
                    &&& forall|k: int| 0 <= k < i ==> (#[trigger] ms[k]).name != key
                }
            },
            None => forall|k: int|
                0 <= k < ms.len() ==> (#[trigger] ms[k]).id != key && ms[k].name != key,
        },
{
    lemma_position(ms, key);
    lemma_named(ms, key);
}

/// A position by name is the first with it.
proof fn lemma_named(ms: Seq<MemoryV>, name: Seq<char>)
    ensures
        match named_position(ms, name) {
            Some(i) => 0 <= i < ms.len() && ms[i].name == name && forall|k: int|
                0 <= k < i ==> (#[trigger] ms[k]).name != name,
            None => forall|k: int| 0 <= k < ms.len() ==> (#[trigger] ms[k]).name != name,
        },
    decreases ms.len(),
{
    if ms.len() > 0 {
        let prev = ms.drop_last();
        lemma_named(prev, name);
        match named_position(ms, name) {
            Some(i) => {
                if i < prev.len() {
                    assert(prev[i] == ms[i]);
                }
                assert forall|k: int| 0 <= k < i implies (#[trigger] ms[k]).name != name by {
                    assert(prev[k] == ms[k]);
                }
            },
            None => {
                assert forall|k: int| 0 <= k < ms.len() implies (#[trigger] ms[k]).name != name by {
                    if k < prev.len() {
                        assert(prev[k] == ms[k]);
                    }
                }
            },
        }
    }
}

/// A step of a chain says what the first edge between its two memories says; a
/// step without an edge says nothing more.
pub proof fn law_step_says_what_its_edge_says(
    es: Seq<EdgeV>,
    from: Seq<char>,
    to: Seq<char>,
    i: int,
)
    requires
        0 <= i < es.len(),
        es[i].old_id == from,
        es[i].new_id == Some(to),
        forall|k: int|
            0 <= k < i ==> !((#[trigger] es[k]).old_id == from && es[k].new_id == Some(to)),
    ensures
        ({
            let h = annotated_hop(es, from, to);
            &&& h.from == from && h.to == to
            &&& h.kind == Some(es[i].kind)
            &&& es[i].reason.len() > 0 ==> h.reason == Some(es[i].reason)
            &&& es[i].reason.len() == 0 ==> h.reason is None
        }),
        ({
            let h = annotated_hop(es.take(i), from, to);
            h.from == from && h.to == to && h.kind is None && h.reason is None
        }),
{
    lemma_edge_found(es, from, to, i);
    lemma_edge_missing(es.take(i), from, to);
}

/// The first edge of a pair is found.
proof fn lemma_edge_found(es: Seq<EdgeV>, from: Seq<char>, to: Seq<char>, i: int)
    requires
        0 <= i < es.len(),
        es[i].old_id == from,
        es[i].new_id == Some(to),
        forall|k: int|
            0 <= k < i ==> !((#[trigger] es[k]).old_id == from && es[k].new_id == Some(to)),
    ensures
        edge_between(es, from, to) == Some(es[i]),
    decreases es.len(),
{
    let prev = es.drop_last();
    if i < prev.len() {
        assert forall|k: int| 0 <= k < i implies !((#[trigger] prev[k]).old_id == from
            && prev[k].new_id == Some(to)) by {
            assert(prev[k] == es[k]);
        }
        lemma_edge_found(prev, from, to, i);
    } else {
        assert forall|k: int| 0 <= k < prev.len() implies !((#[trigger] prev[k]).old_id == from
            && prev[k].new_id == Some(to)) by {
            assert(prev[k] == es[k]);
        }
        lemma_edge_missing(prev, from, to);
    }
}

/// Without an edge of the pair none is found.
proof fn lemma_edge_missing(es: Seq<EdgeV>, from: Seq<char>, to: Seq<char>)
    requires
        forall|k: int|
            0 <= k < es.len() ==> !((#[trigger] es[k]).old_id == from && es[k].new_id == Some(to)),
    ensures
        edge_between(es, from, to) is None,
    decreases es.len(),
{
    if es.len() > 0 {
        let prev = es.drop_last();
        assert forall|k: int| 0 <= k < prev.len() implies !((#[trigger] prev[k]).old_id == from
            && prev[k].new_id == Some(to)) by {
            assert(prev[k] == es[k]);
        }
        lemma_edge_missing(prev, from, to);
        assert(es[es.len() - 1] == es.last());
    }
}

/// What is printed of a chain starts with the memory asked about, has every step
/// in turn, and ends with the one in force; a memory without a successor is said
/// to be current.
pub proof fn law_chain_is_printed(start: Seq<char>, hops: Seq<Seq<char>>, edges: Seq<HopV>, k: int)
    requires
        edges.len() == hops.len(),
        0 <= k < edges.len(),
    ensures
        ({
            let l = resolution_lines(start, hops, edges);
            let h = edges[k];
            &&& l.len() == hops.len() + 2
            &&& l[0] == start
            &&& l.last() == "current: "@ + hops.last()
            &&& h.kind is Some && h.reason is Some ==> l[k + 1] == "  → "@ + h.kind->0 + " → "@ + h.to
                + "  ("@ + h.reason->0 + ")"@
            &&& h.kind is Some && h.reason is None ==> l[k + 1] == "  → "@ + h.kind->0 + " → "@ + h.to
        }),
        resolution_lines(start, Seq::empty(), Seq::empty()) == seq![
            start + " is current (no supersession)"@,
        ],
        ({
            let j = resolution_json(start, hops, edges);
            &&& str_field(j, "start"@) == Some(start)
            &&& str_field(j, "head"@) == Some(hops.last())
            &&& field(j, "current"@) == Some(JsonV::Bool(false))
            &&& field(j, "hops"@) is Some && field(j, "hops"@)->0 is Array
            &&& field(j, "hops"@)->0->Array_0.len() == edges.len()
            &&& str_field(field(j, "hops"@)->0->Array_0[k], "to"@) == Some(edges[k].to)
            &&& str_field(field(j, "hops"@)->0->Array_0[k], "from"@) == Some(edges[k].from)
        }),
{
    let l = resolution_lines(start, hops, edges);
    let steps = edges.map_values(|h: HopV| hop_line(h));
    assert(l[k + 1] == steps[k]);
    lemma_keys_differ();
}

/// The keys of what a resolution prints are different.
proof fn lemma_keys_differ()
    ensures
        "start"@ != "head"@ && "start"@ != "depth"@ && "start"@ != "current"@ && "start"@
            != "hops"@,
        "head"@ != "depth"@ && "head"@ != "current"@ && "head"@ != "hops"@,
        "depth"@ != "current"@ && "depth"@ != "hops"@ && "current"@ != "hops"@,
        "from"@ != "to"@ && "from"@ != "kind"@ && "from"@ != "reason"@ && "to"@ != "kind"@ && "to"@
            != "reason"@ && "kind"@ != "reason"@,
        "id"@ != "name"@ && "id"@ != "score"@ && "id"@ != "cosine"@ && "name"@ != "score"@ && "name"@
            != "cosine"@ && "score"@ != "cosine"@,
{
    reveal_strlit("start");
    reveal_strlit("head");
    reveal_strlit("depth");
    reveal_strlit("current");
    reveal_strlit("hops");
    reveal_strlit("from");
    reveal_strlit("to");
    reveal_strlit("kind");
    reveal_strlit("reason");
    reveal_strlit("id");
    reveal_strlit("name");
    reveal_strlit("score");
    reveal_strlit("cosine");
    assert("start"@[0] == 's' && "depth"@[0] == 'd');
    assert("head"@[1] == 'e' && "hops"@[1] == 'o');
    assert("from"@[0] == 'f' && "kind"@[0] == 'k' && "reason"@[0] == 'r' && "to"@[0] == 't');
    assert("id"@[0] == 'i' && "name"@[0] == 'n' && "score"@[0] == 's' && "cosine"@[0] == 'c');
}

/// The log keeps of a hit which memory it was and how well it matched.
pub proof fn law_logged_hit_reads_back(m: MemoryV, h: HitV)
    ensures
        str_field(logged_hit(m, h), "id"@) == Some(m.id),
        str_field(logged_hit(m, h), "name"@) == Some(m.name),
        field(logged_hit(m, h), "score"@) == Some(h.score),
        field(logged_hit(m, h), "cosine"@) == Some(h.cosine),
{
    lemma_keys_differ();
}

/// Escaping goes character by character: the three that a pattern treats
/// specially get a backslash before them, any other stays.
pub proof fn law_escaping_goes_by_character(a: Seq<char>, b: Seq<char>, c: char)
    ensures
        like_escaped(a + b) == like_escaped(a) + like_escaped(b),
        like_escaped(seq![c]) == (if c == '\\' || c == '%' || c == '_' {
            seq!['\\', c]
        } else {
            seq![c]
        }),
{
    reveal_strlit("\\\\");
    reveal_strlit("\\%");
    reveal_strlit("\\_");
    let e = Seq::<char>::empty();
    let (x, y, z) = ("\\\\"@, "\\%"@, "\\_"@);
    assert(x =~= seq!['\\', '\\'] && y =~= seq!['\\', '%'] && z =~= seq!['\\', '_']);
    law_replacing_goes_by_character(a, b, c, '\\', x);
    let (a1, b1) = (replaced(a, '\\', x), replaced(b, '\\', x));
    law_replacing_goes_by_character(a1, b1, c, '%', y);
    let (a2, b2) = (replaced(a1, '%', y), replaced(b1, '%', y));
    law_replacing_goes_by_character(a2, b2, c, '_', z);
    law_replacing_goes_by_character(seq!['\\'], seq!['\\'], '\\', '%', y);
    law_replacing_goes_by_character(seq!['\\'], seq!['\\'], '\\', '_', z);
    law_replacing_goes_by_character(seq!['\\'], seq!['%'], '\\', '_', z);
    law_replacing_goes_by_character(seq!['\\'], seq!['%'], '%', '_', z);
    assert(seq!['\\'] + seq!['\\'] =~= x);
    assert(seq!['\\'] + seq!['%'] =~= y);
    if c == '\\' {
        assert(like_escaped(seq![c]) =~= x);
    } else if c == '%' {
        assert(like_escaped(seq![c]) =~= y);
    } else if c == '_' {
        assert(like_escaped(seq![c]) =~= z);
    }
}

/// Whether every character of a text is an ASCII letter or digit.
pub open spec fn plain_word(s: Seq<char>) -> bool {
    forall|i: int| 0 <= i < s.len() ==> slug_char(lower_char(#[trigger] s[i]))
}

/// Of letters and digits a slug keeps every one.
proof fn lemma_slug_raw_plain(s: Seq<char>, w: Seq<char>)
    requires
        plain_word(w),
    ensures
        slug_raw(s + w) == slug_raw(s) + ascii_lower(w),
    decreases w.len(),
{
    if w.len() == 0 {
        assert(s + w =~= s);
        assert(slug_raw(s) + ascii_lower(w) =~= slug_raw(s));
    } else {
        let v = w.drop_last();
        lemma_slug_raw_plain(s, v);
        assert((s + w).drop_last() =~= s + v);
        assert((s + w).last() == w[w.len() - 1]);
        assert(slug_raw(s) + ascii_lower(w) =~= (slug_raw(s) + ascii_lower(v)).push(
            lower_char(w.last()),
        ));
    }
}

/// A slug keeps the words of a path in lower case and puts one dash for whatever
/// other character stands between them; what stands at its ends goes.
pub proof fn law_slug_keeps_the_words(a: Seq<char>, x: char, b: Seq<char>)
    requires
        plain_word(a),
        plain_word(b),
        a.len() > 0,
        b.len() > 0,
        !slug_char(lower_char(x)),
    ensures
        slug_of(a) == ascii_lower(a),
        slug_of(a.push(x) + b) == ascii_lower(a).push('-') + ascii_lower(b),
        slug_of(a.push(x)) == ascii_lower(a),
        slug_of(seq![x] + b) == ascii_lower(b),
{
    let e = Seq::<char>::empty();
    reveal_strlit("-");
    let d = "-"@;
    assert(d =~= seq!['-']);
    assert(d[0] == '-');
    let (la, lb) = (ascii_lower(a), ascii_lower(b));
    assert(slug_char(lower_char(a[0])) && slug_char(lower_char(a.last())));
    assert(slug_char(lower_char(b[0])) && slug_char(lower_char(b.last())));
    assert(la[0] != '-' && la.last() != '-' && lb[0] != '-' && lb.last() != '-');
    lemma_slug_raw_plain(e, a);
    assert(e + a =~= a && e + la =~= la);
    law_ends_are_taken_off(la, d);
    assert(!d.contains(la[0]) && !d.contains(la.last()));
    let ax = a.push(x);
    assert(ax.drop_last() =~= a && ax.last() == x);
    assert(slug_raw(ax) == la.push('-'));
    lemma_slug_raw_plain(ax, b);
    let whole = la.push('-') + lb;
    assert(whole[0] == la[0] && whole.last() == lb.last());
    law_ends_are_taken_off(whole, d);
    law_ends_are_taken_off(la.push('-'), d);
    assert(la.push('-').drop_last() =~= la);
    assert(la.push('-')[0] == la[0]);
    assert(d.contains('-'));
    assert(drop_any(la.push('-'), d) == drop_any(la, d));
    let only = seq![x];
    assert(only.drop_last() =~= e && only.last() == x);
    assert(slug_raw(only) =~= seq!['-']);
    lemma_slug_raw_plain(only, b);
    let led = seq!['-'] + lb;
    assert(led.drop_first() =~= lb);
    assert(led[0] == '-');
    law_ends_are_taken_off(lb, d);
    assert(!d.contains(lb[0]) && !d.contains(lb.last()));
    assert(skip_any(led, d) == skip_any(lb, d));
}

/// Where terms were weighed a session is given the best, otherwise all as they
/// come.
pub proof fn law_session_is_given_the_best(scores: Seq<Rank>, limit: nat, i: int)
    requires
        scores.len() <= usize::MAX,
        0 <= i < scores.len(),
    ensures
        context_picks(scores, true, limit) == best(scores, limit),
        context_picks(scores, false, limit).len() == scores.len(),
        context_picks(scores, false, limit)[i] == i,
{
}

/// What stands for a text in place of an embedding goes on with the digest of the
/// text and the next number.
pub proof fn law_stand_in_goes_on(text: Seq<char>, n: nat, m: nat)
    requires
        n <= m,
    ensures
        mock_stream(text, 0).len() == 0,
        mock_stream(text, n).len() <= mock_stream(text, m).len(),
        mock_stream(text, n) == mock_stream(text, m).take(mock_stream(text, n).len() as int),
    decreases m,
{
    if n < m {
        law_stand_in_goes_on(text, n, (m - 1) as nat);
        let q = mock_stream(text, (m - 1) as nat);
        assert(mock_stream(text, m).take(mock_stream(text, n).len() as int) =~= q.take(
            mock_stream(text, n).len() as int,
        ));
    } else {
        assert(mock_stream(text, m).take(mock_stream(text, m).len() as int) =~= mock_stream(
            text,
            m,
        ));
    }
}

/// The log grows by one entry that holds what was done, and the numbers of its
/// entries go on one by one; nothing else of the store changes.
pub proof fn law_log_goes_on_by_one(
    s: StoreV,
    ts: i64,
    actor: Seq<char>,
    action: Seq<char>,
    id: Seq<char>,
    before: Option<Seq<char>>,
    after: Option<Seq<char>>,
    reason: Seq<char>,
    source: Seq<char>,
)
    ensures
        ({
            let t = s.logged(ts, actor, action, id, before, after, reason, source);
            let e = t.events.last();
            &&& t.events.drop_last() == s.events
            &&& e.id == s.next_event as i64 && t.next_event == s.next_event + 1
            &&& e.ts == ts && e.actor == actor && e.action == action && e.memory_id == id
            &&& e.before_json == before && e.after_json == after
            &&& e.reason == reason && e.source_report == source
            &&& t.memories == s.memories && t.topics == s.topics && t.edges == s.edges
                && t.conflicts == s.conflicts
        }),
{
    let t = s.logged(ts, actor, action, id, before, after, reason, source);
    assert(t.events.drop_last() =~= s.events);
}

/// What a snapshot has for a text is the text as JSON, and null where there is
/// none; for a truth value one or nought.
pub proof fn law_snapshot_values(o: Option<Seq<char>>, t: Option<i64>, b: bool)
    ensures
        o is Some ==> opt_str_json(o) == json_text(JsonV::Str(o->0)),
        o is None ==> opt_str_json(o) == "null"@,
        t is Some ==> time_json(t) == int_text(t->0 as int),
        t is None ==> time_json(t) == "null"@,
        b ==> flag_json(b) == "1"@,
        !b ==> flag_json(b) == "0"@,
{
}

/// A session counts as one that was given the kernel where its signals say so and
/// it was given anything.
pub proof fn law_identity_session(r: ContextLogV)
    ensures
        identity_entry(r) ==> like(r.signals, "tier:identity"@) && r.returned.len() > 0,
        like(r.signals, "tier:identity"@) && r.returned.len() > 0 && r.returned != "[]"@
            ==> identity_entry(r),
        r.returned == "[]"@ ==> !identity_entry(r),
{
    reveal_strlit("");
    if r.returned.len() == 0 {
        assert(r.returned =~= ""@);
    }
}

/// A memory that goes into the kernel is logged as promoted, one that leaves it as
/// demoted, with the reason that was given.
pub proof fn law_membership_is_logged(
    s: StoreV,
    id: Seq<char>,
    member: bool,
    reason: Seq<char>,
    ts: i64,
)
    requires
        s.get(id) is Some,
        in_kernel(s.get(id)->0.tags) != member,
    ensures
        ({
            let r = membership(s, id, member, reason, ts);
            let e = r->Ok_0.events.last();
            &&& r is Ok && r->Ok_0.events.len() == s.events.len() + 1
            &&& member ==> e.action == "promote"@
            &&& !member ==> e.action == "demote"@
            &&& e.actor == "agent"@ && e.memory_id == id && e.reason == reason && e.ts == ts
        }),
{
}

/// The end of a path is its last part and the one before it, in this order.
pub proof fn law_end_of_a_path(parts: Seq<Seq<char>>, a: Seq<char>, b: Seq<char>)
    ensures
        tail_parts(parts.push(a).push(b)) == b + "-"@ + a,
        tail_parts(seq![a]) == a,
        tail_parts(Seq::empty()).len() == 0,
{
    let v = parts.push(a).push(b);
    assert(v.last() == b && v[v.len() - 2] == a);
    law_joining_goes_part_by_part(seq![b], seq![a], b, "-"@);
    law_joining_goes_part_by_part(seq![a], seq![a], a, "-"@);
    assert(seq![b] + seq![a] =~= seq![b, a]);
}

} // verus!
