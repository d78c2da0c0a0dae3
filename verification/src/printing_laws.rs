//! What is printed owes: everything that was asked for, in order, under its
//! heading.
use crate::context::{full_context, given, kernel_context, scored_lines, section, Style};
use crate::dates::utc_shown;
use crate::history::{
    change_lines, conflict_lines, conflicts_lines, conflicts_shown, diff_lines, event_lines,
    events_lines, patch_lines, queue_printed, ChangeV,
};
use crate::json::{str_field, JsonV};
use crate::kernel::{
    array_items, export_block, export_blocks, injections, kernel_bytes, kernel_lines, kernel_part,
    kernel_rows, kernel_shown, kernel_total, stats_block, stats_blocks, ContextLogV,
};
use crate::kx::{counts_text, day_shown, ingest_lines, pointer, totals, SourceReport};
use crate::kx_query::{found_lines, listing_line, pointer_line, recalled_lines, title_of};
use crate::metrics::{rows_lines, run_lines, CompletionV, UsageV};
use crate::plan::{candidate_lines, told, ApplyCandidate};
use crate::recall::{
    entries_lines, entry_lines, gap_line, hit_lines, hits_lines, log_entries, log_shown,
    missed_lines, recall_label, recent_line, HitV, LogView, RecallLogV,
};
use crate::render::{day, heading, indented, list_line, session_label};
use crate::rows::MemoryV;
use crate::store::{lifecycle_told, EventV, StoreV};
use crate::tasks::{full_task, list_block, resume_block, task_blocks, TaskV};
use crate::text::{byte_len, decimal, int_text, joined, lines};
use vstd::prelude::*;

verus! {

/// A day is shown by year, month and day, and not at all where the calendar does
/// not reach.
pub proof fn law_day_is_shown(ts: i64)
    ensures
        utc_shown(ts, "%Y-%m-%d"@) is Some ==> day(ts) == utc_shown(ts, "%Y-%m-%d"@)->0
            && day_shown(Some(ts)) == utc_shown(ts, "%Y-%m-%d"@)->0,
        utc_shown(ts, "%Y-%m-%d"@) is None ==> day(ts).len() == 0,
        day_shown(None).len() == 0,
{
}

/// The heading of a memory names it by id, type and name, with its description.
pub proof fn law_heading_names_the_memory(m: MemoryV, last: Seq<char>)
    ensures
        heading(m, last) == "["@ + m.id + "] ("@ + m.type_ + ") "@ + m.name + " — "@ + m.description
            + "  ["@ + last + "]"@,
        m.tags.len() > 0 ==> list_line(m) == "["@ + m.id + "] ("@ + m.type_ + ") "@ + m.name + "  ["@
            + m.tags + "]"@ + " <"@ + m.lifecycle + "> — "@ + m.description + "  ["@ + day(
            m.updated_at,
        ) + "]"@,
        m.tags.len() == 0 ==> list_line(m) == "["@ + m.id + "] ("@ + m.type_ + ") "@ + m.name + " <"@
            + m.lifecycle + "> — "@ + m.description + "  ["@ + day(m.updated_at) + "]"@,
        indented(m.content, last) == joined(
            Seq::new(lines(m.content).len(), |i: int| last + lines(m.content)[i]),
            "\n"@,
        ),
{
    assert(lines(m.content).map_values(|l: Seq<char>| last + l) =~= Seq::new(
        lines(m.content).len(),
        |i: int| last + lines(m.content)[i],
    ));
    let a = "["@ + m.id + "] ("@ + m.type_ + ") "@ + m.name;
    assert(list_line(m) =~= a + (if m.tags.len() == 0 {
        Seq::empty()
    } else {
        "  ["@ + m.tags + "]"@
    }) + " <"@ + m.lifecycle + "> — "@ + m.description + "  ["@ + day(m.updated_at) + "]"@);
    if m.tags.len() == 0 {
        assert(a + Seq::<char>::empty() =~= a);
    } else {
        assert(a + ("  ["@ + m.tags + "]"@) =~= a + "  ["@ + m.tags + "]"@);
    }
}

/// A section of what a session is given has its title and then every memory in
/// turn; one without memories is left out.
pub proof fn law_section_gives_every_memory(
    title: Seq<char>,
    ms: Seq<MemoryV>,
    m: MemoryV,
    style: Style,
)
    ensures
        section(title, Seq::empty(), style).len() == 0,
        section(title, seq![m], style) == seq![title] + given(m, style),
        ms.len() > 0 ==> section(title, ms.push(m), style) == section(title, ms, style) + given(
            m,
            style,
        ),
{
    let one = seq![m];
    assert(one.drop_last() =~= Seq::<MemoryV>::empty());
    assert(one.last() == m);
    assert(crate::context::given_all(one.drop_last(), style) =~= Seq::<Seq<char>>::empty());
    assert(crate::context::given_all(one, style) =~= given(m, style));
    assert(ms.push(m).drop_last() =~= ms);
    assert(ms.push(m).last() == m);
    if ms.len() > 0 {
        assert(section(title, ms.push(m), style) =~= section(title, ms, style) + given(m, style));
    }
}

/// A memory is given to a session with its label, and with its content but where
/// only its description is asked for.
pub proof fn law_memory_is_given_with_its_label(m: MemoryV)
    ensures
        given(m, Style::Rule) == seq![
            "**"@ + m.name + "**: "@ + m.description,
            "*"@ + session_label(m) + "*"@,
            m.content + "\n"@,
        ],
        given(m, Style::Profile) == seq!["*"@ + session_label(m) + "*"@, m.content + "\n"@],
        given(m, Style::Reference) == seq![
            "**"@ + m.name + "**: "@ + m.content,
            "*"@ + session_label(m) + "*"@ + "\n"@,
        ],
        given(m, Style::Short) == seq![
            "**"@ + m.name + "**: "@ + m.description,
            "*"@ + session_label(m) + "*"@ + "\n"@,
        ],
{
}

/// A session is given the rules, the user, the projects and the references, in
/// this order and each in its section; where there is nothing it is given
/// nothing.
pub proof fn law_session_is_given_its_sections(
    feedback: Seq<MemoryV>,
    user: Seq<MemoryV>,
    project: Seq<MemoryV>,
    reference: Seq<MemoryV>,
)
    ensures
        ({
            let c = full_context(feedback, user, project, reference);
            let a = section("### Behavioral Rules (Feedback)\n"@, feedback, Style::Rule);
            let b = section("### User Profile\n"@, user, Style::Profile);
            let d = section("### Project Context\n"@, project, Style::Rule);
            let e = section("### References\n"@, reference, Style::Reference);
            &&& c.len() == 0 <==> feedback.len() + user.len() + project.len() + reference.len() == 0
            &&& c.len() > 0 ==> c[0] == "## Active Memory Context\n"@ && c.skip(1) == a + b + d + e
        }),
        ({
            let c = kernel_context(user, feedback);
            let a = section("### User Profile\n"@, user, Style::Profile);
            let b = section("### Standing Rules\n"@, feedback, Style::Short);
            &&& c.len() == 0 <==> feedback.len() + user.len() == 0
            &&& c.len() > 0 ==> c[0] == "## Identity Kernel\n"@ && c.drop_last().skip(1) == a + b
        }),
{
    let c = full_context(feedback, user, project, reference);
    let a = section("### Behavioral Rules (Feedback)\n"@, feedback, Style::Rule);
    let b = section("### User Profile\n"@, user, Style::Profile);
    let d = section("### Project Context\n"@, project, Style::Rule);
    let e = section("### References\n"@, reference, Style::Reference);
    if c.len() > 0 {
        assert(c.skip(1) =~= a + b + d + e);
    }
    let k = kernel_context(user, feedback);
    let r = section("### Standing Rules\n"@, feedback, Style::Short);
    if k.len() > 0 {
        assert(k.drop_last().skip(1) =~= b + r);
    }
}

/// What is told of the scores names the type and how many were given, and then
/// each with its score.
pub proof fn law_scores_are_told(
    type_: Seq<char>,
    ms: Seq<MemoryV>,
    shown: Seq<Seq<char>>,
    i: int,
)
    requires
        0 <= i < ms.len(),
    ensures
        scored_lines(type_, ms, shown).len() == ms.len() + 1,
        scored_lines(type_, ms, shown)[0] == "[context] "@ + type_ + " ("@ + decimal(ms.len())
            + " returned):"@,
        scored_lines(type_, ms, shown)[i + 1] == "  "@ + shown[i] + "  "@ + ms[i].id + " — "@
            + ms[i].description,
{
}

/// The lines of a hit: its score and what memory it is, its label, what it was
/// found through and may contradict where there is any, and its content where
/// that was asked for. Hits are printed one after the other.
pub proof fn law_hits_are_printed(
    ms: Seq<MemoryV>,
    hs: Seq<HitV>,
    h: HitV,
    v1: bool,
    full: bool,
)
    ensures
        hits_lines(ms, hs.push(h), v1, full) == hits_lines(ms, hs, v1, full) + hit_lines(
            ms[h.at],
            h,
            v1,
            full,
        ),
        hits_lines(ms, Seq::empty(), v1, full).len() == 0,
        ({
            let m = ms[h.at];
            let l = hit_lines(m, h, v1, full);
            let via: int = if h.via is Some {
                1
            } else {
                0
            };
            let n = 2 + via + (if h.conflicts.len() > 0 {
                1int
            } else {
                0int
            }) + (if full {
                1int
            } else {
                0int
            });
            &&& l.len() == n
            &&& v1 ==> l[0] == "["@ + h.score_shown + "|c"@ + h.cosine_shown + "]"@ + " "@ + heading(
                m,
                day(m.updated_at),
            )
            &&& !v1 ==> l[0] == "["@ + h.score_shown + "]"@ + " "@ + heading(m, day(m.updated_at))
            &&& l[1] == "  "@ + recall_label(m)
            &&& h.via is Some ==> l[2] == "  matched via superseded "@ + h.via->0
            &&& h.conflicts.len() > 0 ==> l[2 + via] == "  possible-conflict-with: "@ + joined(
                h.conflicts,
                ", "@,
            )
            &&& full ==> l.last() == indented(m.content, "  "@) + "\n"@
        }),
{
    assert(hs.push(h).drop_last() =~= hs);
    assert(hs.push(h).last() == h);
}

/// Entries of the log are printed one after the other, each with who did what and
/// when, and with its reason and source where it has any.
pub proof fn law_events_are_printed(id: Seq<char>, es: Seq<EventV>, e: EventV)
    ensures
        events_lines(es.push(e)) == events_lines(es) + event_lines(e),
        events_lines(Seq::empty()).len() == 0,
        patch_lines(id, es.push(e)) == patch_lines(id, es) + event_lines(e) + seq![
            "  diff: agent memory diff "@ + id + " --event "@ + int_text(e.id as int),
        ],
        patch_lines(id, Seq::empty()).len() == 0,
        event_lines(e)[0] == "["@ + int_text(e.id as int) + "] "@ + day(e.ts) + " "@ + e.action
            + " by "@ + e.actor,
        e.reason.len() > 0 ==> event_lines(e).len() >= 2 && event_lines(e)[1] == "  reason: "@
            + e.reason,
        e.source_report.len() > 0 ==> event_lines(e).len() >= 2 && event_lines(e).last()
            == "  source: "@ + e.source_report,
        e.reason.len() == 0 && e.source_report.len() == 0 ==> event_lines(e).len() == 1,
{
    assert(es.push(e).drop_last() =~= es);
    assert(es.push(e).last() == e);
    reveal_strlit("  diff: ");
    reveal_strlit("agent memory diff ");
    reveal_strlit("  diff: agent memory diff ");
    let t = id + " --event "@ + int_text(e.id as int);
    assert("  diff: agent memory diff "@ =~= "  diff: "@ + "agent memory diff "@);
    assert("  diff: "@ + crate::history::diff_command(id, e.id)
        =~= "  diff: agent memory diff "@ + id + " --event "@ + int_text(e.id as int));
}

/// Changes are printed one after the other: the field, what was there before and
/// what is there after.
pub proof fn law_changes_are_printed(id: Seq<char>, e: EventV, cs: Seq<ChangeV>, c: ChangeV)
    ensures
        change_lines(cs.push(c)) == change_lines(cs) + seq![
            c.field + ":"@,
            "- "@ + crate::json::json_text(c.before),
            "+ "@ + crate::json::json_text(c.after),
        ],
        change_lines(Seq::empty()).len() == 0,
        diff_lines(id, e, cs)[0] == "memory "@ + id + " event "@ + int_text(e.id as int) + ": "@
            + e.action + " by "@ + e.actor + " ("@ + day(e.ts) + ")"@,
        diff_lines(id, e, Seq::empty()).last() == "(no field changes)"@,
        cs.len() > 0 ==> diff_lines(id, e, cs).len() >= change_lines(cs).len() && diff_lines(
            id,
            e,
            cs,
        ).skip(diff_lines(id, e, cs).len() - change_lines(cs).len()) == change_lines(cs),
{
    assert(cs.push(c).drop_last() =~= cs);
    assert(cs.push(c).last() == c);
    let l = diff_lines(id, e, cs);
    if cs.len() > 0 {
        assert(l.skip(l.len() - change_lines(cs).len()) =~= change_lines(cs));
    }
}

/// Conflicts are printed one after the other, each with its number, its status and
/// both memories, and with how it is settled.
pub proof fn law_conflicts_are_printed(
    s: StoreV,
    at: Seq<int>,
    i: int,
    conf: Seq<Seq<char>>,
)
    ensures
        conflicts_lines(s, at.push(i), conf) == conflicts_lines(s, at, conf) + conflict_lines(
            s,
            s.conflicts[i],
            conf[i],
        ),
        conflicts_lines(s, Seq::empty(), conf).len() == 0,
        ({
            let c = s.conflicts[i];
            let n = int_text(c.id as int);
            let l = conflict_lines(s, c, conf[i]);
            &&& l[0] == "#"@ + n + " ["@ + c.status + "] "@ + c.new_id + " ("@ + s.get(
                c.new_id,
            )->0.name + ") --"@ + c.relation + " "@ + conf[i] + "--> "@ + c.old_id + " ("@ + s.get(
                c.old_id,
            )->0.name + ")  ["@ + day(c.created_at) + "]"@
            &&& c.rationale.len() > 0 ==> l[1] == "    "@ + c.rationale
            &&& l.last() == "    resolve: agent memory correct "@ + c.old_id + " --with "@ + c.new_id
                + "   |   dismiss: agent memory conflicts --dismiss "@ + n
        }),
{
    assert(at.push(i).drop_last() =~= at);
    assert(at.push(i).last() == i);
}

/// What an open queue prints has every conflict shown, and says so where there is
/// none.
pub proof fn law_queue_is_printed(
    s: StoreV,
    all: bool,
    conf: Seq<JsonV>,
    shown: Seq<Seq<char>>,
)
    ensures
        ({
            let at = conflicts_shown(s, all);
            let p = queue_printed(s, all, false, conf, shown);
            &&& p is Lines
            &&& at.len() > 0 ==> p->Lines_0.skip(1) == conflicts_lines(s, at, shown)
            &&& at.len() == 0 && all ==> p->Lines_0 == seq!["no "@ + "recorded"@ + " conflicts"@]
            &&& at.len() == 0 && !all ==> p->Lines_0 == seq!["no "@ + "open"@ + " conflicts"@]
        }),
        queue_printed(s, all, true, conf, shown) is Json,
{
    let at = conflicts_shown(s, all);
    let p = queue_printed(s, all, false, conf, shown);
    if at.len() > 0 {
        assert(p->Lines_0.skip(1) =~= conflicts_lines(s, at, shown));
    }
}

/// The kernel's size adds up memory by memory: the content of what is given in
/// full, name and description of the rest.
pub proof fn law_kernel_size_adds_up(ms: Seq<MemoryV>, m: MemoryV, full: bool, from: int)
    ensures
        kernel_total(Seq::empty(), full, from) == from,
        kernel_total(ms, full, from) + byte_len(m.content) <= usize::MAX && full ==> kernel_total(
            ms.push(m),
            full,
            from,
        ) == kernel_total(ms, full, from) + byte_len(m.content),
        kernel_total(ms, full, from) + byte_len(m.name) + byte_len(m.description) <= usize::MAX
            && kernel_total(ms, full, from) >= 0 && !full ==> kernel_total(ms.push(m), full, from)
            == kernel_total(ms, full, from) + byte_len(m.name) + byte_len(m.description),
{
    assert(ms.push(m).drop_last() =~= ms);
    assert(ms.push(m).last() == m);
}

/// The kernel is shown part by part, every memory with how often and when it was
/// last given.
pub proof fn law_kernel_is_shown(
    title: Seq<char>,
    ms: Seq<MemoryV>,
    m: MemoryV,
    full: bool,
    log: Seq<ContextLogV>,
)
    ensures
        kernel_rows(ms.push(m), full, log) == kernel_rows(ms, full, log) + kernel_lines(
            m,
            full,
            log,
        ),
        kernel_part(title, Seq::empty(), full, log).len() == 0,
        kernel_part(title, ms.push(m), full, log) == seq![title] + kernel_rows(
            ms.push(m),
            full,
            log,
        ),
        kernel_lines(m, full, log).len() == 2,
        kernel_lines(m, full, log)[1] == "      "@ + m.name,
        ({
            let (n, last) = injections(log, m.id);
            let lead = "  "@ + m.id + "  ~"@ + decimal((kernel_bytes(m, full) / 4) as nat)
                + " tok  injected "@ + decimal(n as nat) + "x (logged"@;
            let end = ")  ["@ + session_label(m) + "]"@;
            &&& last > 0 ==> kernel_lines(m, full, log)[0] == lead + ", last "@ + day(last) + end
            &&& last <= 0 ==> kernel_lines(m, full, log)[0] == lead + end
        }),
        kernel_shown(Seq::empty(), Seq::empty(), log).len() == 1,
{
    assert(ms.push(m).drop_last() =~= ms);
    assert(ms.push(m).last() == m);
    let (n, last) = injections(log, m.id);
    let lead = "  "@ + m.id + "  ~"@ + decimal((kernel_bytes(m, full) / 4) as nat)
        + " tok  injected "@ + decimal(n as nat) + "x (logged"@;
    let end = ")  ["@ + session_label(m) + "]"@;
    if last > 0 {
        assert(kernel_lines(m, full, log)[0] =~= lead + ", last "@ + day(last) + end);
    } else {
        assert(kernel_lines(m, full, log)[0] =~= lead + end);
    }
}

/// Sessions are printed one after the other, each with every memory it was given.
pub proof fn law_sessions_are_printed(log: Seq<ContextLogV>, r: ContextLogV, i: int)
    requires
        0 <= i < array_items(r.returned).len(),
    ensures
        stats_blocks(log.push(r)) == stats_blocks(log) + stats_block(r),
        stats_blocks(Seq::empty()).len() == 0,
        stats_block(r).len() == array_items(r.returned).len() + 2,
        stats_block(r)[0] == "#"@ + int_text(r.id as int) + "  "@ + day(r.created_at) + "  cwd="@
            + crate::text::split_on(r.cwd, '/').last() + "  signals=["@ + r.signals + "]  scored="@
            + int_text(r.n_scored as int),
        str_field(array_items(r.returned)[i], "name"@) is Some ==> stats_block(r)[i + 1] == "  "@
            + crate::json::fixed_shown(
            crate::json::field(array_items(r.returned)[i], "score"@),
        ) + "  "@ + str_field(array_items(r.returned)[i], "name"@)->0,
{
    assert(log.push(r).drop_last() =~= log);
    assert(log.push(r).last() == r);
}

/// An export has every memory one after the other, with its fields between dashes
/// and its content behind.
pub proof fn law_export_has_every_memory(ms: Seq<MemoryV>, m: MemoryV)
    ensures
        export_blocks(ms.push(m)) == export_blocks(ms) + export_block(m),
        export_blocks(Seq::empty()).len() == 0,
        ({
            let b = export_block(m);
            &&& b[0] == "---"@ && b[1] == "id: "@ + m.id && b[2] == "name: "@ + m.name
            &&& b[3] == "description: "@ + m.description && b[4] == "type: "@ + m.type_
            &&& m.tags.len() > 0 ==> b.len() == 8 && b[5] == "tags: "@ + m.tags
            &&& m.tags.len() == 0 ==> b.len() == 7
            &&& b[b.len() - 2] == "---\n"@ && b.last() == m.content + "\n"@
        }),
{
    assert(ms.push(m).drop_last() =~= ms);
    assert(ms.push(m).last() == m);
}

/// Entries of the index are printed one after the other: what they are and where
/// they point.
pub proof fn law_entries_are_printed(ms: Seq<MemoryV>, m: MemoryV, hs: Seq<HitV>, h: HitV)
    ensures
        found_lines(ms.push(m)) == found_lines(ms) + seq![
            m.name + " — "@ + m.description,
            "  "@ + pointer(m.content) + "  ("@ + day_shown(m.valid_from) + ")  ["@ + m.tags + "]"@,
        ],
        found_lines(Seq::empty()).len() == 0,
        recalled_lines(ms, hs.push(h)) == recalled_lines(ms, hs) + seq![
            "["@ + h.score_shown + "] "@ + title_of(ms[h.at]),
            pointer_line(ms[h.at]),
        ],
        recalled_lines(ms, Seq::empty()).len() == 0,
        listing_line(m) == "["@ + m.id + "] "@ + m.name + " <"@ + m.scope + "> ("@ + day_shown(
            m.valid_from,
        ) + ") — "@ + m.description + "  ["@ + m.tags + "]"@,
{
    assert(ms.push(m).drop_last() =~= ms);
    assert(ms.push(m).last() == m);
    assert(hs.push(h).drop_last() =~= hs);
    assert(hs.push(h).last() == h);
}

/// What was taken in is printed corpus by corpus, and then in all; a dry run is
/// marked.
pub proof fn law_ingest_is_printed(v: Seq<SourceReport>, i: int, a: nat, b: nat, c: nat, d: nat)
    requires
        0 <= i < v.len(),
    ensures
        ({
            let l = ingest_lines(v, false);
            let dry = ingest_lines(v, true);
            let r = v[i];
            let text = counts_text(
                r.scanned as nat,
                r.inserted as nat,
                r.updated as nat,
                r.skipped as nat,
            );
            let (w, x, y, z) = totals(v);
            &&& l.len() == v.len() + 1 && dry.len() == v.len() + 1
            &&& l[i] == r.path@ + ": "@ + text
            &&& dry[i] == "[dry-run] "@ + r.path@ + ": "@ + text
            &&& l.last() == "total: "@ + counts_text(w, x, y, z)
        }),
        counts_text(a, b, c, d) == decimal(a) + " scanned, +"@ + decimal(b) + " inserted, ~"@
            + decimal(c) + " updated, ="@ + decimal(d) + " skipped"@,
{
    reveal_strlit("");
    let l = ingest_lines(v, false);
    let r = v[i];
    let e = ""@;
    assert(e + r.path@ =~= r.path@);
    assert(e + "total: "@ =~= "total: "@);
}

/// Tasks are printed one after the other, each with what it is about and where.
pub proof fn law_tasks_are_printed(ts: Seq<TaskV>, t: TaskV)
    ensures
        task_blocks(ts.push(t), false) == task_blocks(ts, false) + list_block(t),
        task_blocks(ts.push(t), true) == task_blocks(ts, true) + resume_block(t),
        task_blocks(Seq::empty(), true).len() == 0 && task_blocks(Seq::empty(), false).len() == 0,
        list_block(t).len() == 2,
        t.cwd.len() == 0 ==> list_block(t)[1] == "  "@ + t.objective,
        t.cwd.len() > 0 ==> list_block(t)[1] == "  "@ + t.objective + "  cwd: "@ + t.cwd,
        resume_block(t)[1] == "  "@ + t.objective,
        t.cwd.len() > 0 ==> resume_block(t).len() == 3 && resume_block(t)[2] == "  cwd: "@ + t.cwd,
        t.cwd.len() == 0 ==> resume_block(t).len() == 2,
        full_task(t)[0] == "id:          "@ + t.id && full_task(t)[1] == "status:      "@ + t.status,
        full_task(t)[2] == "type:        "@ + t.task_type && full_task(t)[3] == "objective:   "@
            + t.objective,
        t.result is Some ==> full_task(t).last() == t.result->0 && full_task(t)[full_task(t).len()
            - 2] == "result:"@,
{
    assert(ts.push(t).drop_last() =~= ts);
    assert(ts.push(t).last() == t);
    let o = "  "@ + t.objective;
    assert(o + Seq::<char>::empty() =~= o);
    assert(o + ("  cwd: "@ + t.cwd) =~= o + "  cwd: "@ + t.cwd);
}

/// Runs are printed one after the other, each with the cost that was recorded for
/// it.
pub proof fn law_runs_are_printed(
    cs: Seq<CompletionV>,
    us: Seq<UsageV>,
    rows: Seq<(int, Option<int>)>,
    c: int,
    u: int,
)
    ensures
        rows_lines(cs, us, rows.push((c, Some(u)))) == rows_lines(cs, us, rows) + run_lines(
            cs[c],
            Some(us[u].cost_shown),
        ),
        rows_lines(cs, us, rows.push((c, None))) == rows_lines(cs, us, rows) + run_lines(
            cs[c],
            None,
        ),
        rows_lines(cs, us, Seq::empty()).len() == 0,
        run_lines(cs[c], None).len() == 2,
        run_lines(cs[c], None)[1] == "  "@ + crate::text::clipped(cs[c].objective, 80),
{
    let a = rows.push((c, Some(u)));
    let b = rows.push((c, None));
    assert(a.drop_last() =~= rows && b.drop_last() =~= rows);
    assert(a.last() == (c, Some(u)));
    assert(b.last() == (c, None::<int>));
}

/// Recalls of the log are printed one after the other, in the order of the list;
/// where there is none a note says so.
pub proof fn law_recalls_are_printed(
    log: Seq<RecallLogV>,
    r: RecallLogV,
    v: LogView,
    title: Seq<char>,
    limit: nat,
)
    ensures
        entries_lines(log.push(r), v) == entries_lines(log, v) + entry_lines(r, v),
        entries_lines(Seq::empty(), v).len() == 0,
        v is Gaps ==> entry_lines(r, v) == seq![gap_line(r)],
        v is Missed ==> entry_lines(r, v) == missed_lines(r),
        v is Recent ==> entry_lines(r, v) == seq![recent_line(r)],
        log_shown(title, log, v, limit)[0] == title,
        log_entries(log, v, limit).len() > 0 ==> {
            let n = entries_lines(log_entries(log, v, limit), v).len() as int;
            log_shown(title, log, v, limit).len() > n && log_shown(title, log, v, limit).subrange(
                1,
                n + 1,
            ) == entries_lines(log_entries(log, v, limit), v)
        },
        log_entries(log, v, limit).len() == 0 ==> log_shown(title, log, v, limit).len() >= 2,
{
    assert(log.push(r).drop_last() =~= log);
    assert(log.push(r).last() == r);
    let es = entries_lines(log_entries(log, v, limit), v);
    let n = es.len() as int;
    assert(log_shown(title, log, v, limit).subrange(1, n + 1) =~= es);
}

/// What is told of a lifecycle names what was done and to which memory.
pub proof fn law_lifecycle_is_told(id: Seq<char>)
    ensures
        lifecycle_told("active"@, id) == "restore"@ + ": "@ + id,
        lifecycle_told("archived"@, id) == "archive"@ + ": "@ + id,
        lifecycle_told("trashed"@, id) == "trash"@ + ": "@ + id,
{
    reveal_strlit("active");
    reveal_strlit("archived");
    reveal_strlit("trashed");
    assert("active"@.len() == 6 && "archived"@.len() == 8 && "trashed"@.len() == 7);
}

/// A candidate of a plan is shown by its id and action first.
pub proof fn law_candidate_is_shown(c: ApplyCandidate)
    ensures
        candidate_lines(c)[0] == c.id@ + ": "@ + c.action@,
        c.memory_id is Some ==> candidate_lines(c)[1] == "  memory_id: "@ + c.memory_id->0@,
        c.source_report is Some && c.source_report->0@.len() > 0 ==> candidate_lines(c).last()
            == "  source: "@ + c.source_report->0@,
{
}

/// What is told of a candidate that was applied: the id of what was added, what
/// was done to a memory's lifecycle, and of a change nothing.
pub proof fn law_applied_candidate_is_told(c: ApplyCandidate, id: Seq<char>)
    ensures
        c.action@ == "add"@ ==> told(c, id) == Some(id),
        c.action@ == "update"@ ==> told(c, id) is None,
        c.action@ == "archive"@ && c.memory_id is Some ==> told(c, id) == Some(
            "archive"@ + ": "@ + c.memory_id->0@,
        ),
        c.action@ == "restore"@ && c.memory_id is Some ==> told(c, id) == Some(
            "restore"@ + ": "@ + c.memory_id->0@,
        ),
{
    reveal_strlit("add");
    reveal_strlit("update");
    reveal_strlit("archive");
    reveal_strlit("restore");
    reveal_strlit("trash");
    reveal_strlit("active");
    reveal_strlit("archived");
    assert("add"@.len() == 3 && "update"@.len() == 6 && "archive"@.len() == 7 && "restore"@.len()
        == 7 && "trash"@.len() == 5 && "active"@.len() == 6 && "archived"@.len() == 8);
    assert("archive"@[0] == 'a' && "restore"@[0] == 'r');
}

/// The line of a run: when it ran, how it ended, what ran, how long it took where
/// that is known, and what it cost where that was recorded.
pub proof fn law_run_is_printed(c: CompletionV, cost: Seq<char>)
    ensures
        ({
            let lead = "["@ + c.id + "] "@ + crate::dates::shown_or_empty(
                c.created_at,
                "%Y-%m-%d %H:%M"@,
            ) + "  "@ + crate::text::padded_right(c.status, 12) + " "@ + c.model + " ("@
                + c.task_type + ")  "@;
            let a = run_lines(c, Some(cost))[0];
            let b = run_lines(c, None)[0];
            &&& c.wall_ms is Some ==> a == lead + (int_text(c.wall_ms->0 as int) + "ms"@) + "  "@ + (
            "$"@ + cost) && b == lead + (int_text(c.wall_ms->0 as int) + "ms"@) + "  "@ + ""@
            &&& c.wall_ms is None ==> a == lead + ""@ + "  "@ + ("$"@ + cost) && b == lead + ""@ + "  "@
                + ""@
        }),
{
}

} // verus!
