//! Plans of changes: candidates that are shown or applied one by one.
use crate::edit::{addition, change, AddArgs, AddV, UpdateArgs, UpdateV};
use crate::settings::{Settings, SettingsV};
use crate::store::{
    agrees, can_log, done, lifecycle_set, lifecycle_told, Changed, LifecycleArgs, Store, StoreV,
};
use crate::text::{copy_opt, is_listed, lemma_texts_push, listed, opt_text, same, texts};
use vstd::prelude::*;

verus! {

/// The arguments of applying a plan.
#[derive(Debug)]
pub struct ApplyPlanArgs {
    pub file: String,
    pub select: Vec<String>,
    pub dry_run: bool,
}

/// One proposed change.
#[derive(Debug)]
pub struct ApplyCandidate {
    pub id: String,
    pub action: String,
    pub memory_id: Option<String>,
    pub type_: Option<String>,
    pub name: Option<String>,
    pub description: Option<String>,
    pub content: Option<String>,
    pub tags: Option<String>,
    pub cwd: Option<String>,
    pub source: Option<String>,
    pub scope: Option<String>,
    pub active: Option<bool>,
    pub reason: Option<String>,
    pub source_report: Option<String>,
}

/// The message for a candidate that lacks a field.
pub open spec fn lacks(c: ApplyCandidate, field: Seq<char>) -> Seq<char> {
    "candidate "@ + c.id@ + " action "@ + c.action@ + " missing "@ + field
}

/// An optional text, or an empty one.
pub open spec fn or_empty(o: Option<String>) -> Seq<char> {
    match o {
        Some(s) => s@,
        None => Seq::empty(),
    }
}

/// The addition that a candidate asks for.
pub open spec fn candidate_addition(c: ApplyCandidate) -> AddV {
    AddV {
        type_: or_empty(c.type_),
        name: or_empty(c.name),
        description: or_empty(c.description),
        tags: or_empty(c.tags),
        cwd: or_empty(c.cwd),
        source: match c.source {
            Some(s) => s@,
            None => "apply-plan"@,
        },
        scope: opt_text(c.scope),
        source_ref: opt_text(c.source_report),
        author: None,
    }
}

/// The change that a candidate asks for.
pub open spec fn candidate_change(c: ApplyCandidate) -> UpdateV {
    UpdateV {
        id: or_empty(c.memory_id),
        name: opt_text(c.name),
        description: opt_text(c.description),
        tags: opt_text(c.tags),
        active: c.active,
        scope: opt_text(c.scope),
    }
}

/// The lifecycle that an action sets.
pub open spec fn action_lifecycle(action: Seq<char>) -> Option<Seq<char>> {
    if action == "archive"@ {
        Some("archived"@)
    } else if action == "trash"@ {
        Some("trashed"@)
    } else if action == "restore"@ {
        Some("active"@)
    } else {
        None
    }
}

/// Applying one candidate; an addition goes under the given id.
pub open spec fn applied(
    st: StoreV,
    c: ApplyCandidate,
    id: Seq<char>,
    ts: i64,
    s: SettingsV,
) -> Changed {
    if c.action@ == "add"@ {
        if c.type_ is None {
            Err(lacks(c, "type"@))
        } else if c.name is None {
            Err(lacks(c, "name"@))
        } else if c.description is None {
            Err(lacks(c, "description"@))
        } else if c.content is None {
            Err(lacks(c, "content"@))
        } else {
            addition(st, candidate_addition(c), opt_text(c.content), id, ts, s)
        }
    } else if c.action@ == "update"@ {
        if c.memory_id is None {
            Err(lacks(c, "memory_id"@))
        } else {
            change(st, candidate_change(c), opt_text(c.content), ts)
        }
    } else {
        match action_lifecycle(c.action@) {
            Some(l) => if c.memory_id is None {
                Err(lacks(c, "memory_id"@))
            } else {
                lifecycle_set(
                    st,
                    or_empty(c.memory_id),
                    l,
                    or_empty(c.reason),
                    or_empty(c.source_report),
                    ts,
                )
            },
            None => Err("candidate "@ + c.id@ + " has unsupported action: "@ + c.action@),
        }
    }
}

/// What is told of a candidate that was applied: the id of an addition, nothing
/// of an update, and a lifecycle that was set.
pub open spec fn told(c: ApplyCandidate, id: Seq<char>) -> Option<Seq<char>> {
    if c.action@ == "add"@ {
        Some(id)
    } else if c.action@ == "update"@ {
        None
    } else {
        match action_lifecycle(c.action@) {
            Some(l) => Some(lifecycle_told(l, or_empty(c.memory_id))),
            None => None,
        }
    }
}

/// Writes the message for a candidate that lacks a field.
fn lacking(c: &ApplyCandidate, field: &str) -> (r: String)
    ensures
        r@ == lacks(*c, field@),
{
    let mut m = "candidate ".to_string();
    m.append(c.id.as_str());
    m.append(" action ");
    m.append(c.action.as_str());
    m.append(" missing ");
    m.append(field);
    m
}

/// A text, or an empty one.
fn text_or_empty(o: &Option<String>) -> (r: String)
    ensures
        r@ == or_empty(*o),
{
    match o {
        Some(s) => s.clone(),
        None => String::new(),
    }
}

/// A field that must be there.
fn required(value: &Option<String>, c: &ApplyCandidate, field: &str) -> (r: Result<String, String>)
    ensures
        match r {
            Ok(s) => opt_text(*value) == Some(s@),
            Err(e) => value is None && e@ == lacks(*c, field@),
        },
{
    match value {
        Some(s) => Ok(s.clone()),
        None => Err(lacking(c, field)),
    }
}

impl Store {
    /// Applies one candidate, and says what is told of it.
    pub fn apply_candidate(&mut self, c: &ApplyCandidate, id: &str, ts: i64, s: &Settings) -> (r:
        Result<Option<String>, String>)
        requires
            can_log(old(self)@),
        ensures
            agrees(done(r), old(self)@, final(self)@, applied(old(self)@, *c, id@, ts, s@)),
            r is Ok ==> opt_text(r->Ok_0) == told(*c, id@),
    {
        proof {
            reveal_strlit("add");
            reveal_strlit("update");
            reveal_strlit("archive");
            reveal_strlit("trash");
            reveal_strlit("restore");
        }
        let action = c.action.as_str();
        if same(action, "add") {
            let type_ = match required(&c.type_, c, "type") {
                Ok(x) => x,
                Err(e) => {
                    return Err(e);
                },
            };
            let name = match required(&c.name, c, "name") {
                Ok(x) => x,
                Err(e) => {
                    return Err(e);
                },
            };
            let description = match required(&c.description, c, "description") {
                Ok(x) => x,
                Err(e) => {
                    return Err(e);
                },
            };
            let content = match required(&c.content, c, "content") {
                Ok(x) => x,
                Err(e) => {
                    return Err(e);
                },
            };
            let source = match &c.source {
                Some(x) => x.clone(),
                None => "apply-plan".to_string(),
            };
            let args = AddArgs {
                type_,
                name,
                description,
                content: None,
                content_file: None,
                tags: text_or_empty(&c.tags),
                cwd: text_or_empty(&c.cwd),
                source,
                scope: copy_opt(&c.scope),
                source_ref: copy_opt(&c.source_report),
                author: None,
                no_adjudicate: true,
            };
            return match self.add(&args, &Some(content), id, ts, s) {
                Ok(_) => Ok(Some(id.to_owned())),
                Err(e) => Err(e),
            };
        }
        if same(action, "update") {
            let memory_id = match required(&c.memory_id, c, "memory_id") {
                Ok(x) => x,
                Err(e) => {
                    return Err(e);
                },
            };
            let args = UpdateArgs {
                id: memory_id,
                name: copy_opt(&c.name),
                description: copy_opt(&c.description),
                content: None,
                content_file: None,
                tags: copy_opt(&c.tags),
                active: c.active,
                scope: copy_opt(&c.scope),
            };
            return match self.update(&args, &c.content, ts) {
                Ok(_) => Ok(None),
                Err(e) => Err(e),
            };
        }
        let lifecycle = if same(action, "archive") {
            "archived"
        } else if same(action, "trash") {
            "trashed"
        } else if same(action, "restore") {
            "active"
        } else {
            let mut m = "candidate ".to_string();
            m.append(c.id.as_str());
            m.append(" has unsupported action: ");
            m.append(action);
            return Err(m);
        };
        let args = match lifecycle_args_from_candidate(c) {
            Ok(a) => a,
            Err(e) => {
                return Err(e);
            },
        };
        match self.set_lifecycle(&args, lifecycle, ts) {
            Ok(line) => Ok(Some(line)),
            Err(e) => Err(e),
        }
    }
}

/// The lifecycle change that a candidate asks for.
pub fn lifecycle_args_from_candidate(c: &ApplyCandidate) -> (r: Result<LifecycleArgs, String>)
    ensures
        match r {
            Ok(a) => opt_text(c.memory_id) == Some(a.id@) && a.reason@ == or_empty(c.reason)
                && a.source_report@ == or_empty(c.source_report),
            Err(e) => c.memory_id is None && e@ == lacks(*c, "memory_id"@),
        },
{
    match required(&c.memory_id, c, "memory_id") {
        Ok(id) => Ok(
            LifecycleArgs {
                id,
                reason: text_or_empty(&c.reason),
                source_report: text_or_empty(&c.source_report),
            },
        ),
        Err(e) => Err(e),
    }
}

/// A line for a text that is there and not empty.
pub open spec fn shown_field(label: Seq<char>, o: Option<String>, empty_too: bool) -> Seq<
    Seq<char>,
> {
    match o {
        Some(s) => if empty_too || s@.len() > 0 {
            seq![label + s@]
        } else {
            Seq::empty()
        },
        None => Seq::empty(),
    }
}

/// A candidate as it is shown.
pub open spec fn candidate_lines(c: ApplyCandidate) -> Seq<Seq<char>> {
    seq![c.id@ + ": "@ + c.action@] + shown_field("  memory_id: "@, c.memory_id, true)
        + shown_field("  name: "@, c.name, true) + shown_field(
        "  description: "@,
        c.description,
        true,
    ) + shown_field("  reason: "@, c.reason, false) + shown_field(
        "  source: "@,
        c.source_report,
        false,
    )
}

/// Appends the line of a field.
fn show_field(out: &mut Vec<String>, label: &str, o: &Option<String>, empty_too: bool)
    ensures
        texts(final(out)@) == texts(old(out)@) + shown_field(label@, *o, empty_too),
{
    let ghost before = out@;
    if let Some(s) = o {
        if empty_too || !s.as_str().is_empty() {
            let mut l = label.to_owned();
            l.append(s.as_str());
            out.push(l);
            assert(texts(out@) =~= texts(before) + seq![label@ + s@]);
            return;
        }
    }
    assert(texts(out@) =~= texts(before) + Seq::<Seq<char>>::empty());
}

/// Shows a candidate.
pub fn print_apply_candidate(c: &ApplyCandidate) -> (r: Vec<String>)
    ensures
        texts(r@) == candidate_lines(*c),
{
    let mut out: Vec<String> = Vec::new();
    let mut l = c.id.clone();
    l.append(": ");
    l.append(c.action.as_str());
    out.push(l);
    assert(texts(out@) =~= seq![c.id@ + ": "@ + c.action@]);
    show_field(&mut out, "  memory_id: ", &c.memory_id, true);
    show_field(&mut out, "  name: ", &c.name, true);
    show_field(&mut out, "  description: ", &c.description, true);
    show_field(&mut out, "  reason: ", &c.reason, false);
    show_field(&mut out, "  source: ", &c.source_report, false);
    out
}

/// The ids of some candidates.
pub open spec fn candidate_ids(v: Seq<ApplyCandidate>) -> Seq<Seq<char>> {
    v.map_values(|c: ApplyCandidate| c.id@)
}

/// Whether a selection takes a candidate: nothing selected takes all.
pub open spec fn takes(select: Seq<Seq<char>>, id: Seq<char>) -> bool {
    select.len() == 0 || listed(select, id)
}

/// The smallest selected id that no candidate has, in the order of texts.
pub open spec fn unknown_selected(select: Seq<Seq<char>>, ids: Seq<Seq<char>>) -> Option<Seq<char>>
    decreases select.len(),
{
    if select.len() == 0 {
        None
    } else {
        let before = unknown_selected(select.drop_last(), ids);
        let x = select.last();
        if listed(ids, x) {
            before
        } else {
            match before {
                Some(y) => if crate::text::text_before(x, y) {
                    Some(x)
                } else {
                    Some(y)
                },
                None => Some(x),
            }
        }
    }
}

/// Why a plan is refused before anything is done.
pub open spec fn plan_refused(
    select: Seq<Seq<char>>,
    ids: Seq<Seq<char>>,
    dry_run: bool,
) -> Option<Seq<char>> {
    if !dry_run && select.len() == 0 {
        Some("apply-plan requires at least one --select unless --dry-run is set"@)
    } else {
        match unknown_selected(select, ids) {
            Some(x) => Some("selected candidate not found in plan: "@ + x),
            None => None,
        }
    }
}

/// The store after the taken candidates were applied in order, and the first
/// error, behind which nothing more is done.
pub open spec fn plan_applied(
    st: StoreV,
    cs: Seq<ApplyCandidate>,
    ids: Seq<Seq<char>>,
    select: Seq<Seq<char>>,
    ts: i64,
    s: SettingsV,
) -> (StoreV, Option<Seq<char>>)
    decreases cs.len(),
{
    if cs.len() == 0 {
        (st, None)
    } else {
        let (t, err) = plan_applied(st, cs.drop_last(), ids, select, ts, s);
        if err is Some || !takes(select, cs.last().id@) {
            (t, err)
        } else {
            match applied(t, cs.last(), ids[cs.len() - 1], ts, s) {
                Ok(u) => (u, None),
                Err(e) => (t, Some(e)),
            }
        }
    }
}

/// What is told of the candidates that were applied, in order.
pub open spec fn plan_told(
    st: StoreV,
    cs: Seq<ApplyCandidate>,
    ids: Seq<Seq<char>>,
    select: Seq<Seq<char>>,
    ts: i64,
    s: SettingsV,
) -> Seq<Seq<char>>
    decreases cs.len(),
{
    if cs.len() == 0 {
        Seq::empty()
    } else {
        let init = plan_told(st, cs.drop_last(), ids, select, ts, s);
        let (t, err) = plan_applied(st, cs.drop_last(), ids, select, ts, s);
        let id = ids[cs.len() - 1];
        if err is Some || !takes(select, cs.last().id@) || applied(t, cs.last(), id, ts, s) is Err {
            init
        } else {
            match told(cs.last(), id) {
                Some(line) => init.push(line),
                None => init,
            }
        }
    }
}

/// Checks a selection against a plan.
pub fn check_plan(cs: &Vec<ApplyCandidate>, args: &ApplyPlanArgs) -> (r: Result<(), String>)
    ensures
        match r {
            Ok(_) => plan_refused(texts(args.select@), candidate_ids(cs@), args.dry_run) is None,
            Err(e) => plan_refused(texts(args.select@), candidate_ids(cs@), args.dry_run) == Some(
                e@,
            ),
        },
{
    let ghost sel = texts(args.select@);
    let ghost cids = candidate_ids(cs@);
    assert(sel.len() == args.select@.len());
    if !args.dry_run && args.select.len() == 0 {
        return Err("apply-plan requires at least one --select unless --dry-run is set".to_string());
    }
    let mut ids: Vec<String> = Vec::new();
    let mut k: usize = 0;
    while k < cs.len()
        invariant
            k <= cs@.len(),
            ids@.len() == k,
            forall|x: int| 0 <= x < k ==> (#[trigger] ids@[x])@ == cs@[x].id@,
        decreases cs@.len() - k,
    {
        ids.push(cs[k].id.clone());
        k = k + 1;
    }
    assert(texts(ids@) =~= cids);
    let mut least: Option<String> = None;
    let mut i: usize = 0;
    assert(sel.take(0).len() == 0);
    while i < args.select.len()
        invariant
            sel == texts(args.select@),
            cids == texts(ids@),
            i <= args.select@.len(),
            opt_text(least) == unknown_selected(sel.take(i as int), cids),
        decreases args.select@.len() - i,
    {
        assert(sel.take(i as int + 1).drop_last() =~= sel.take(i as int));
        assert(sel.take(i as int + 1).last() == args.select@[i as int]@);
        let x = args.select[i].as_str();
        if !is_listed(&ids, x) {
            let smaller = match &least {
                Some(y) => crate::text::comes_before(x, y.as_str()),
                None => true,
            };
            if smaller {
                least = Some(x.to_owned());
            }
        }
        i = i + 1;
    }
    assert(sel.take(i as int) =~= sel);
    match least {
        Some(x) => {
            let mut m = "selected candidate not found in plan: ".to_string();
            m.append(x.as_str());
            Err(m)
        },
        None => Ok(()),
    }
}

/// Whether a selection takes a candidate.
pub fn is_taken(select: &Vec<String>, id: &str) -> (r: bool)
    ensures
        r == takes(texts(select@), id@),
{
    assert(texts(select@).len() == select@.len());
    select.len() == 0 || is_listed(select, id)
}

/// Whether the body of a taken candidate is to be read from standard input.
pub fn takes_stdin(c: &ApplyCandidate, select: &Vec<String>) -> (r: bool)
    ensures
        r == (takes(texts(select@), c.id@) && (c.action@ == "add"@ || c.action@ == "update"@)
            && opt_text(c.content) == Some("-"@)),
{
    let dash = match &c.content {
        Some(x) => same(x.as_str(), "-"),
        None => false,
    };
    is_taken(select, c.id.as_str()) && (same(c.action.as_str(), "add") || same(
        c.action.as_str(),
        "update",
    )) && dash
}

/// Applying a candidate takes at most one more log entry.
proof fn lemma_applied_events(st: StoreV, c: ApplyCandidate, id: Seq<char>, ts: i64, s: SettingsV)
    ensures
        applied(st, c, id, ts, s) is Ok ==> applied(st, c, id, ts, s)->Ok_0.next_event
            == st.next_event + 1,
{
}

impl Store {
    /// Applies the taken candidates in order, each addition under the id drawn
    /// for its place, and says what is told of each; stops at the first error,
    /// keeping what was done.
    pub fn apply_plan(
        &mut self,
        cs: &Vec<ApplyCandidate>,
        ids: &Vec<String>,
        select: &Vec<String>,
        ts: i64,
        s: &Settings,
    ) -> (r: (Vec<String>, Option<String>))
        requires
            ids@.len() == cs@.len(),
            old(self).next_event + cs@.len() <= i64::MAX,
        ensures
            (final(self)@, opt_text(r.1)) == plan_applied(
                old(self)@,
                cs@,
                texts(ids@),
                texts(select@),
                ts,
                s@,
            ),
            texts(r.0@) == plan_told(old(self)@, cs@, texts(ids@), texts(select@), ts, s@),
    {
        let ghost start = self@;
        let ghost sel = texts(select@);
        let mut out: Vec<String> = Vec::new();
        let mut i: usize = 0;
        assert(cs@.take(0).len() == 0);
        assert(texts(out@) =~= Seq::<Seq<char>>::empty());
        while i < cs.len()
            invariant
                i <= cs@.len(),
                ids@.len() == cs@.len(),
                start == old(self)@,
                sel == texts(select@),
                old(self).next_event + cs@.len() <= i64::MAX,
                self@.next_event <= start.next_event + i,
                plan_applied(start, cs@.take(i as int), texts(ids@), sel, ts, s@) == (
                    self@,
                    None::<Seq<char>>,
                ),
                texts(out@) == plan_told(start, cs@.take(i as int), texts(ids@), sel, ts, s@),
            decreases cs@.len() - i,
        {
            assert(cs@.take(i as int + 1).drop_last() =~= cs@.take(i as int));
            assert(cs@.take(i as int + 1).last() == cs@[i as int]);
            assert(texts(ids@)[i as int] == ids@[i as int]@);
            if is_taken(select, cs[i].id.as_str()) {
                let ghost before = self@;
                proof {
                    lemma_applied_events(before, cs@[i as int], ids@[i as int]@, ts, s@);
                }
                match self.apply_candidate(&cs[i], ids[i].as_str(), ts, s) {
                    Ok(Some(line)) => {
                        proof {
                            lemma_texts_push(out@, line);
                        }
                        out.push(line);
                    },
                    Ok(None) => {},
                    Err(e) => {
                        proof {
                            lemma_plan_error_stays(
                                start,
                                cs@,
                                texts(ids@),
                                sel,
                                ts,
                                s@,
                                i as int + 1,
                            );
                        }
                        return (out, Some(e));
                    },
                }
            }
            i = i + 1;
        }
        assert(cs@.take(i as int) =~= cs@);
        (out, None)
    }
}

/// An error among the first candidates is the outcome of the plan, and nothing
/// more is told.
proof fn lemma_plan_error_stays(
    st: StoreV,
    cs: Seq<ApplyCandidate>,
    ids: Seq<Seq<char>>,
    select: Seq<Seq<char>>,
    ts: i64,
    s: SettingsV,
    n: int,
)
    requires
        0 <= n <= cs.len(),
        plan_applied(st, cs.take(n), ids, select, ts, s).1 is Some,
    ensures
        plan_applied(st, cs, ids, select, ts, s) == plan_applied(
            st,
            cs.take(n),
            ids,
            select,
            ts,
            s,
        ),
        plan_told(st, cs, ids, select, ts, s) == plan_told(st, cs.take(n), ids, select, ts, s),
    decreases cs.len() - n,
{
    if n < cs.len() {
        assert(cs.take(n + 1).drop_last() =~= cs.take(n));
        lemma_plan_error_stays(st, cs, ids, select, ts, s, n + 1);
    } else {
        assert(cs.take(n) =~= cs);
    }
}

} // verus!
