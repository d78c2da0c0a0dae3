//! Measures of past runs: what is recorded of them, and the reports on it.
//! Averages and costs are floating-point numbers: they come in as texts and as
//! keys that order as they do.
use crate::dates::{fmt_minute, shown_or_empty};
use crate::render::{after, say};
use crate::sort::{at_most, ordered, top};
use crate::store::Rank;
use crate::text::{
    clip, clipped, decimal, i64_text, int_text, opt_text, pad_left, pad_right, padded_left,
    padded_right, repeat, repeated, same, texts, usize_text,
};
use vstd::prelude::*;

verus! {

/// What a report covers.
#[derive(Debug)]
pub struct ReportArgs {
    pub days: u32,
    pub model: Option<String>,
    pub task_type: Option<String>,
}

/// Which runs a listing shows.
#[derive(Debug)]
pub struct ListArgs {
    pub limit: usize,
    pub days: u32,
}

/// A run.
#[derive(Debug)]
pub struct Completion {
    pub id: String,
    pub model: String,
    pub provider: String,
    pub task_type: String,
    pub objective: String,
    pub status: String,
    pub wall_ms: Option<i64>,
    pub created_at: i64,
}

/// What a run is.
pub struct CompletionV {
    pub id: Seq<char>,
    pub model: Seq<char>,
    pub provider: Seq<char>,
    pub task_type: Seq<char>,
    pub objective: Seq<char>,
    pub status: Seq<char>,
    pub wall_ms: Option<i64>,
    pub created_at: i64,
}

impl View for Completion {
    type V = CompletionV;

    open spec fn view(&self) -> CompletionV {
        CompletionV {
            id: self.id@,
            model: self.model@,
            provider: self.provider@,
            task_type: self.task_type@,
            objective: self.objective@,
            status: self.status@,
            wall_ms: self.wall_ms,
            created_at: self.created_at,
        }
    }
}

/// What a list of runs is.
pub open spec fn runs_view(v: Seq<Completion>) -> Seq<CompletionV> {
    v.map_values(|c: Completion| c@)
}

/// The tokens that a run used, at one time.
#[derive(Debug)]
pub struct Usage {
    pub completion_id: String,
    pub input_tokens: i64,
    pub output_tokens: i64,
    pub cache_read: i64,
    /// The cost in dollars with four places.
    pub cost_shown: String,
}

/// What a use of tokens is.
pub struct UsageV {
    pub completion_id: Seq<char>,
    pub input_tokens: i64,
    pub output_tokens: i64,
    pub cache_read: i64,
    pub cost_shown: Seq<char>,
}

impl View for Usage {
    type V = UsageV;

    open spec fn view(&self) -> UsageV {
        UsageV {
            completion_id: self.completion_id@,
            input_tokens: self.input_tokens,
            output_tokens: self.output_tokens,
            cache_read: self.cache_read,
            cost_shown: self.cost_shown@,
        }
    }
}

/// What a list of uses is.
pub open spec fn usage_view(v: Seq<Usage>) -> Seq<UsageV> {
    v.map_values(|u: Usage| u@)
}

/// The sum of three integers, where it and the sum of the last two fit.
pub open spec fn sum_of(a: i64, b: i64, c: i64) -> Option<i64> {
    if i64::MIN <= b + c <= i64::MAX && i64::MIN <= a + b + c <= i64::MAX {
        Some((a + b + c) as i64)
    } else {
        None
    }
}

/// The tokens of a run so far, with one more use; `None` where a sum does not
/// fit.
pub open spec fn with_use(sums: Option<(i64, i64)>, u: UsageV) -> Option<(i64, i64)> {
    let (t, c) = match sums {
        Some(s) => s,
        None => (0i64, 0i64),
    };
    match (sum_of(t, u.input_tokens, u.output_tokens), sum_of(c, u.cache_read, 0)) {
        (Some(x), Some(y)) => Some((x, y)),
        _ => None,
    }
}

/// The tokens of a run: those read and written, and those read from a cache.
/// Nothing where it has no uses; an error where at some use a sum does not fit.
pub open spec fn tokens_used(us: Seq<UsageV>, id: Seq<char>) -> Result<Option<(i64, i64)>, ()>
    decreases us.len(),
{
    if us.len() == 0 {
        Ok(None)
    } else {
        match tokens_used(us.drop_last(), id) {
            Err(e) => Err(e),
            Ok(sums) => if us.last().completion_id != id {
                Ok(sums)
            } else {
                match with_use(sums, us.last()) {
                    Some(s) => Ok(Some(s)),
                    None => Err(()),
                }
            },
        }
    }
}

/// A sum that does not fit among the first uses is an error of all.
proof fn lemma_tokens_error_stays(us: Seq<UsageV>, id: Seq<char>, n: int)
    requires
        0 <= n <= us.len(),
        tokens_used(us.take(n), id) is Err,
    ensures
        tokens_used(us, id) is Err,
    decreases us.len() - n,
{
    if n < us.len() {
        assert(us.take(n + 1).drop_last() =~= us.take(n));
        lemma_tokens_error_stays(us, id, n + 1);
    } else {
        assert(us.take(n) =~= us);
    }
}

/// Adds three integers.
fn add_three(a: i64, b: i64, c: i64) -> (r: Option<i64>)
    ensures
        r == sum_of(a, b, c),
{
    match b.checked_add(c) {
        Some(s) => a.checked_add(s),
        None => None,
    }
}

/// Adds up the tokens of a run.
pub fn token_totals(usage: &Vec<Usage>, id: &str) -> (r: Result<Option<(i64, i64)>, String>)
    ensures
        match tokens_used(usage_view(usage@), id@) {
            Ok(sums) => r is Ok && r->Ok_0 == sums,
            Err(_) => r is Err && r->Err_0@ == "integer overflow"@,
        },
{
    let ghost us = usage_view(usage@);
    let mut sums: Option<(i64, i64)> = None;
    let mut i: usize = 0;
    assert(us.take(0).len() == 0);
    while i < usage.len()
        invariant
            us == usage_view(usage@),
            i <= usage@.len(),
            tokens_used(us.take(i as int), id@) == Ok::<Option<(i64, i64)>, ()>(sums),
        decreases usage@.len() - i,
    {
        let u = &usage[i];
        proof {
            assert(us.take(i as int + 1).drop_last() =~= us.take(i as int));
            assert(us.take(i as int + 1).last() == u@);
        }
        if same(u.completion_id.as_str(), id) {
            let (t, c) = match sums {
                Some(s) => s,
                None => (0, 0),
            };
            match (add_three(t, u.input_tokens, u.output_tokens), add_three(c, u.cache_read, 0)) {
                (Some(x), Some(y)) => {
                    sums = Some((x, y));
                },
                _ => {
                    proof {
                        lemma_tokens_error_stays(us, id@, i as int + 1);
                    }
                    return Err("integer overflow".to_string());
                },
            }
        }
        i = i + 1;
    }
    assert(us.take(i as int) =~= us);
    Ok(sums)
}

/// What a report asks of a run.
pub struct ReportV {
    pub since: i64,
    pub model: Option<Seq<char>>,
    pub task_type: Option<Seq<char>>,
}

/// Whether a report covers a run.
pub open spec fn covered(c: CompletionV, q: ReportV) -> bool {
    &&& c.created_at >= q.since
    &&& q.model is Some ==> c.model == q.model->0
    &&& q.task_type is Some ==> c.task_type == q.task_type->0
}

/// Runs of one model, provider and type of task.
#[derive(Debug)]
pub struct Group {
    pub model: String,
    pub provider: String,
    pub task_type: String,
    /// The positions of the runs.
    pub at: Vec<usize>,
    /// How many of them were completed.
    pub successes: usize,
}

/// What a group is.
pub struct GroupV {
    pub model: Seq<char>,
    pub provider: Seq<char>,
    pub task_type: Seq<char>,
    pub at: Seq<int>,
    pub successes: nat,
}

impl View for Group {
    type V = GroupV;

    open spec fn view(&self) -> GroupV {
        GroupV {
            model: self.model@,
            provider: self.provider@,
            task_type: self.task_type@,
            at: self.at@.map_values(|i: usize| i as int),
            successes: self.successes as nat,
        }
    }
}

/// What a list of groups is.
pub open spec fn groups_view(v: Seq<Group>) -> Seq<GroupV> {
    v.map_values(|g: Group| g@)
}

/// Whether a run is of a group.
pub open spec fn of_group(g: GroupV, c: CompletionV) -> bool {
    g.model == c.model && g.provider == c.provider && g.task_type == c.task_type
}

/// One for a run that was completed.
pub open spec fn success(c: CompletionV) -> nat {
    if c.status == "completed"@ {
        1
    } else {
        0
    }
}

/// A group with one more run.
pub open spec fn joined_by(g: GroupV, c: CompletionV, at: int) -> GroupV {
    GroupV { at: g.at.push(at), successes: g.successes + success(c), ..g }
}

/// The position of the group of a run.
pub open spec fn group_at(gs: Seq<GroupV>, c: CompletionV) -> Option<int>
    decreases gs.len(),
{
    if gs.len() == 0 {
        None
    } else {
        match group_at(gs.drop_last(), c) {
            Some(i) => Some(i),
            None => if of_group(gs.last(), c) {
                Some(gs.len() - 1)
            } else {
                None
            },
        }
    }
}

/// The groups with one more run.
pub open spec fn put_run(gs: Seq<GroupV>, c: CompletionV, at: int) -> Seq<GroupV> {
    match group_at(gs, c) {
        Some(i) => gs.update(i, joined_by(gs[i], c, at)),
        None => gs.push(
            GroupV {
                model: c.model,
                provider: c.provider,
                task_type: c.task_type,
                at: seq![at],
                successes: success(c),
            },
        ),
    }
}

/// The groups of the runs that a report covers, in the order of their first
/// runs.
pub open spec fn grouped(cs: Seq<CompletionV>, q: ReportV) -> Seq<GroupV>
    decreases cs.len(),
{
    if cs.len() == 0 {
        Seq::empty()
    } else {
        let init = grouped(cs.drop_last(), q);
        if covered(cs.last(), q) {
            put_run(init, cs.last(), cs.len() - 1)
        } else {
            init
        }
    }
}

/// A group found among the first is the one found.
proof fn lemma_group_stays(gs: Seq<GroupV>, c: CompletionV, n: int)
    requires
        0 <= n <= gs.len(),
        group_at(gs.take(n), c) is Some,
    ensures
        group_at(gs, c) == group_at(gs.take(n), c),
    decreases gs.len() - n,
{
    if n < gs.len() {
        assert(gs.take(n + 1).drop_last() =~= gs.take(n));
        lemma_group_stays(gs, c, n + 1);
    } else {
        assert(gs.take(n) =~= gs);
    }
}

/// The group found stands where it was found, and the run is of it; where none
/// is found, the run is of none.
proof fn lemma_group_found(gs: Seq<GroupV>, c: CompletionV)
    ensures
        match group_at(gs, c) {
            Some(i) => 0 <= i < gs.len() && of_group(gs[i], c),
            None => forall|i: int| 0 <= i < gs.len() ==> !of_group(#[trigger] gs[i], c),
        },
    decreases gs.len(),
{
    if gs.len() > 0 {
        lemma_group_found(gs.drop_last(), c);
        assert forall|i: int| 0 <= i < gs.len() && group_at(gs, c) is None implies !of_group(
            #[trigger] gs[i],
            c,
        ) by {
            if i < gs.len() - 1 {
                assert(gs.drop_last()[i] == gs[i]);
            }
        }
    }
}

/// How many runs some groups hold together.
pub open spec fn runs_held(gs: Seq<GroupV>) -> nat
    decreases gs.len(),
{
    if gs.len() == 0 {
        0
    } else {
        runs_held(gs.drop_last()) + gs.last().at.len()
    }
}

/// How many runs a report covers.
pub open spec fn runs_covered(cs: Seq<CompletionV>, q: ReportV) -> nat
    decreases cs.len(),
{
    if cs.len() == 0 {
        0
    } else {
        runs_covered(cs.drop_last(), q) + (if covered(cs.last(), q) {
            1nat
        } else {
            0
        })
    }
}

/// A group with one more run adds one to the sum.
proof fn lemma_held_update(gs: Seq<GroupV>, i: int, g: GroupV)
    requires
        0 <= i < gs.len(),
        g.at.len() == gs[i].at.len() + 1,
    ensures
        runs_held(gs.update(i, g)) == runs_held(gs) + 1,
    decreases gs.len(),
{
    let us = gs.update(i, g);
    if i == gs.len() - 1 {
        assert(us.drop_last() =~= gs.drop_last());
    } else {
        lemma_held_update(gs.drop_last(), i, g);
        assert(us.drop_last() =~= gs.drop_last().update(i, g));
    }
}

/// Whether a group holds the runs of a report that are of it, and no others.
pub open spec fn sound_group(g: GroupV, cs: Seq<CompletionV>, q: ReportV) -> bool {
    &&& 0 < g.at.len()
    &&& g.successes <= g.at.len()
    &&& forall|k: int|
        0 <= k < g.at.len() ==> 0 <= #[trigger] g.at[k] < cs.len() && covered(cs[g.at[k]], q)
            && of_group(g, cs[g.at[k]])
}

/// A report puts every run that it covers in exactly one group: the groups hold
/// as many runs as are covered, each is of its group, and no group holds more
/// successes than runs.
pub proof fn law_groups_hold_every_run(cs: Seq<CompletionV>, q: ReportV)
    ensures
        runs_held(grouped(cs, q)) == runs_covered(cs, q),
        forall|i: int| 0 <= i < grouped(cs, q).len() ==> sound_group(#[trigger] grouped(cs, q)[i], cs, q),
    decreases cs.len(),
{
    if cs.len() > 0 {
        let init = cs.drop_last();
        let c = cs.last();
        let gs = grouped(init, q);
        law_groups_hold_every_run(init, q);
        lemma_group_found(gs, c);
        if covered(c, q) {
            match group_at(gs, c) {
                Some(i) => {
                    lemma_held_update(gs, i, joined_by(gs[i], c, cs.len() - 1));
                },
                None => {
                    assert(grouped(cs, q).drop_last() =~= gs);
                },
            }
        }
        assert forall|i: int| 0 <= i < grouped(cs, q).len() implies sound_group(
            #[trigger] grouped(cs, q)[i],
            cs,
            q,
        ) by {
            let g = grouped(cs, q)[i];
            if i < gs.len() {
                assert(sound_group(gs[i], init, q));
            }
            assert forall|k: int| 0 <= k < g.at.len() implies 0 <= #[trigger] g.at[k] < cs.len()
                && covered(cs[g.at[k]], q) && of_group(g, cs[g.at[k]]) by {
                if i < gs.len() && k < gs[i].at.len() {
                    assert(gs[i].at[k] == g.at[k]);
                    assert(init[g.at[k]] == cs[g.at[k]]);
                }
            }
        }
    }
}

/// Finds the group of a run.
fn find_group(gs: &Vec<Group>, c: &Completion) -> (r: Option<usize>)
    ensures
        match r {
            Some(i) => i < gs@.len() && group_at(groups_view(gs@), c@) == Some(i as int),
            None => group_at(groups_view(gs@), c@) is None,
        },
{
    let ghost all = groups_view(gs@);
    let mut i: usize = 0;
    while i < gs.len()
        invariant
            all == groups_view(gs@),
            i <= gs@.len(),
            group_at(all.take(i as int), c@) is None,
        decreases gs@.len() - i,
    {
        let g = &gs[i];
        assert(all.take(i as int + 1).drop_last() =~= all.take(i as int));
        assert(all.take(i as int + 1).last() == g@);
        if same(g.model.as_str(), c.model.as_str()) && same(
            g.provider.as_str(),
            c.provider.as_str(),
        ) && same(g.task_type.as_str(), c.task_type.as_str()) {
            proof {
                lemma_group_stays(all, c@, i as int + 1);
            }
            return Some(i);
        }
        i = i + 1;
    }
    assert(all.take(i as int) =~= all);
    None
}

/// A text that is asked for, or any.
fn is_wanted(want: &Option<String>, s: &str) -> (r: bool)
    ensures
        r == (opt_text(*want) is Some ==> s@ == opt_text(*want)->0),
{
    match want {
        Some(w) => same(s, w.as_str()),
        None => true,
    }
}

/// Groups the runs that a report covers.
pub fn report_groups(runs: &Vec<Completion>, args: &ReportArgs, now: i64) -> (r: Vec<Group>)
    requires
        now - args.days * 86400 >= i64::MIN,
    ensures
        groups_view(r@) == grouped(
            runs_view(runs@),
            (ReportV {
                since: (now - args.days * 86400) as i64,
                model: opt_text(args.model),
                task_type: opt_text(args.task_type),
            }),
        ),
{
    let since = crate::tasks::cutoff(now, args.days);
    let ghost q = ReportV {
        since,
        model: opt_text(args.model),
        task_type: opt_text(args.task_type),
    };
    let ghost cs = runs_view(runs@);
    let mut out: Vec<Group> = Vec::new();
    let mut i: usize = 0;
    assert(groups_view(out@) =~= grouped(cs.take(0), q));
    while i < runs.len()
        invariant
            cs == runs_view(runs@),
            i <= runs@.len(),
            q == (ReportV {
                since,
                model: opt_text(args.model),
                task_type: opt_text(args.task_type),
            }),
            groups_view(out@) == grouped(cs.take(i as int), q),
        decreases runs@.len() - i,
    {
        let c = &runs[i];
        assert(cs.take(i as int + 1).drop_last() =~= cs.take(i as int));
        assert(cs.take(i as int + 1).last() == c@);
        if c.created_at >= since && is_wanted(&args.model, c.model.as_str()) && is_wanted(
            &args.task_type,
            c.task_type.as_str(),
        ) {
            let one: usize = if same(c.status.as_str(), "completed") {
                1
            } else {
                0
            };
            let ghost before = groups_view(out@);
            match find_group(&out, c) {
                Some(k) => {
                    let mut at: Vec<usize> = Vec::new();
                    let g = &out[k];
                    let mut j: usize = 0;
                    while j < g.at.len()
                        invariant
                            j <= g.at@.len(),
                            at@ == g.at@.take(j as int),
                        decreases g.at@.len() - j,
                    {
                        at.push(g.at[j]);
                        assert(at@ =~= g.at@.take(j as int + 1));
                        j = j + 1;
                    }
                    assert(at@ =~= g.at@);
                    proof {
                        law_groups_hold_every_run(cs.take(i as int), q);
                        assert(before[k as int] == g@);
                        assert(sound_group(grouped(cs.take(i as int), q)[k as int], cs.take(i as int), q));
                        lemma_held_bound(before, k as int);
                        lemma_covered_bound(cs.take(i as int), q);
                    }
                    at.push(i);
                    let h = Group {
                        model: g.model.clone(),
                        provider: g.provider.clone(),
                        task_type: g.task_type.clone(),
                        at,
                        successes: g.successes + one,
                    };
                    assert(h@.at =~= before[k as int].at.push(i as int));
                    assert(h@ == joined_by(before[k as int], c@, i as int));
                    out.set(k, h);
                    assert(groups_view(out@) =~= before.update(k as int, h@));
                },
                None => {
                    let mut at: Vec<usize> = Vec::new();
                    at.push(i);
                    let h = Group {
                        model: c.model.clone(),
                        provider: c.provider.clone(),
                        task_type: c.task_type.clone(),
                        at,
                        successes: one,
                    };
                    assert(h@.at =~= seq![i as int]);
                    out.push(h);
                    assert(groups_view(out@) =~= before.push(h@));
                },
            }
        }
        i = i + 1;
    }
    assert(cs.take(i as int) =~= cs);
    out
}

/// One group holds no more runs than all together.
proof fn lemma_held_bound(gs: Seq<GroupV>, k: int)
    requires
        0 <= k < gs.len(),
    ensures
        gs[k].at.len() <= runs_held(gs),
    decreases gs.len(),
{
    if k < gs.len() - 1 {
        lemma_held_bound(gs.drop_last(), k);
    }
}

/// A report covers no more runs than there are.
proof fn lemma_covered_bound(cs: Seq<CompletionV>, q: ReportV)
    ensures
        runs_covered(cs, q) <= cs.len(),
    decreases cs.len(),
{
    if cs.len() > 0 {
        lemma_covered_bound(cs.drop_last(), q);
    }
}

/// The order of the groups in a report: by their cost, the largest first, and
/// those of which no cost is known last.
pub open spec fn cost_keys(costs: Seq<Option<Rank>>) -> Seq<(i64, i64)> {
    costs.map_values(
        |c: Option<Rank>|
            match c {
                Some(r) => (1i64, r.key),
                None => (0i64, 0i64),
            },
    )
}

/// Orders the groups of a report by their cost.
pub fn order_by_cost(costs: &Vec<Option<Rank>>) -> (r: Vec<usize>)
    ensures
        r@ == ordered(cost_keys(costs@)),
{
    let mut keys: Vec<(i64, i64)> = Vec::new();
    let mut i: usize = 0;
    while i < costs.len()
        invariant
            i <= costs@.len(),
            keys@.len() == i,
            forall|k: int| 0 <= k < i ==> #[trigger] keys@[k] == cost_keys(costs@)[k],
        decreases costs@.len() - i,
    {
        match costs[i] {
            Some(r) => keys.push((1, r.key)),
            None => keys.push((0, 0)),
        }
        i = i + 1;
    }
    assert(keys@ =~= cost_keys(costs@));
    crate::sort::order_desc(&keys)
}

/// The averages of a group, as they are shown.
#[derive(Debug)]
pub struct Averages {
    pub wall_ms: String,
    pub tools: String,
    pub cost: String,
    pub tokens: String,
    pub cache: String,
}

/// The heading of a report.
pub open spec fn report_head() -> Seq<Seq<char>> {
    seq![
        padded_right("model/task_type"@, 35) + " "@ + padded_right("provider"@, 10) + " "@
            + padded_left("runs"@, 5) + " "@ + padded_left("ok%"@, 5) + " "@ + padded_left(
            "avg_ms"@,
            8,
        ) + " "@ + padded_left("tools"@, 7) + " "@ + padded_left("cost_usd"@, 10) + " "@
            + padded_left("tokens"@, 8) + " "@ + padded_left("cache%"@, 7),
        repeated("-"@, 100),
    ]
}

/// The share of successes in percent, rounded down.
pub open spec fn ok_percent(g: GroupV) -> nat {
    if g.at.len() > 0 {
        g.successes * 100 / g.at.len()
    } else {
        0
    }
}

/// The line of a group.
pub open spec fn report_line(g: GroupV, a: Averages) -> Seq<char> {
    padded_right(g.model + " / "@ + g.task_type, 35) + " "@ + padded_right(g.provider, 10) + " "@
        + padded_left(decimal(g.at.len()), 5) + " "@ + padded_left(decimal(ok_percent(g)), 4)
        + "% "@ + padded_left(a.wall_ms@, 8) + " "@ + padded_left(a.tools@, 7) + " "@ + padded_left(
        a.cost@,
        10,
    ) + " "@ + padded_left(a.tokens@, 8) + " "@ + padded_left(a.cache@, 6) + "%"@
}

/// Writes the heading of a report.
pub fn write_report_head() -> (r: Vec<String>)
    ensures
        texts(r@) == report_head(),
{
    let mut l = pad_right("model/task_type", 35);
    l.append(" ");
    l.append(pad_right("provider", 10).as_str());
    l.append(" ");
    l.append(pad_left("runs", 5).as_str());
    l.append(" ");
    l.append(pad_left("ok%", 5).as_str());
    l.append(" ");
    l.append(pad_left("avg_ms", 8).as_str());
    l.append(" ");
    l.append(pad_left("tools", 7).as_str());
    l.append(" ");
    l.append(pad_left("cost_usd", 10).as_str());
    l.append(" ");
    l.append(pad_left("tokens", 8).as_str());
    l.append(" ");
    l.append(pad_left("cache%", 7).as_str());
    let mut out: Vec<String> = Vec::new();
    out.push(l);
    out.push(repeat("-", 100));
    assert(texts(out@) =~= report_head());
    out
}

/// Writes the line of a group.
pub fn write_report_line(g: &Group, a: &Averages) -> (r: String)
    requires
        g.successes <= g.at@.len(),
        g.at@.len() * 100 <= usize::MAX,
    ensures
        r@ == report_line(g@, *a),
{
    let n: usize = g.at.len();
    let percent: usize = if n > 0 {
        g.successes * 100 / n
    } else {
        0
    };
    let mut label = g.model.clone();
    label.append(" / ");
    label.append(g.task_type.as_str());
    let mut l = pad_right(label.as_str(), 35);
    l.append(" ");
    l.append(pad_right(g.provider.as_str(), 10).as_str());
    l.append(" ");
    l.append(pad_left(usize_text(n).as_str(), 5).as_str());
    l.append(" ");
    l.append(pad_left(usize_text(percent).as_str(), 4).as_str());
    l.append("% ");
    l.append(pad_left(a.wall_ms.as_str(), 8).as_str());
    l.append(" ");
    l.append(pad_left(a.tools.as_str(), 7).as_str());
    l.append(" ");
    l.append(pad_left(a.cost.as_str(), 10).as_str());
    l.append(" ");
    l.append(pad_left(a.tokens.as_str(), 8).as_str());
    l.append(" ");
    l.append(pad_left(a.cache.as_str(), 6).as_str());
    l.append("%");
    l
}

/// The uses of a run, each with its position.
pub open spec fn uses_of(us: Seq<UsageV>, id: Seq<char>) -> Seq<int>
    decreases us.len(),
{
    if us.len() == 0 {
        Seq::empty()
    } else if us.last().completion_id == id {
        uses_of(us.drop_last(), id).push(us.len() - 1)
    } else {
        uses_of(us.drop_last(), id)
    }
}

/// The rows of one run in a listing: one for each use, or one without any.
pub open spec fn run_rows(at: int, us: Seq<UsageV>, id: Seq<char>) -> Seq<(int, Option<int>)> {
    let uses = uses_of(us, id);
    if uses.len() == 0 {
        seq![(at, None)]
    } else {
        uses.map_values(|u: int| (at, Some(u)))
    }
}

/// The rows of the runs that are recent enough.
pub open spec fn recent_rows(cs: Seq<CompletionV>, us: Seq<UsageV>, since: i64) -> Seq<
    (int, Option<int>),
>
    decreases cs.len(),
{
    if cs.len() == 0 {
        Seq::empty()
    } else {
        let init = recent_rows(cs.drop_last(), us, since);
        if cs.last().created_at >= since {
            init + run_rows(cs.len() - 1, us, cs.last().id)
        } else {
            init
        }
    }
}

/// The line of a run: what it was, how long it took and what it cost.
pub open spec fn run_lines(c: CompletionV, cost: Option<Seq<char>>) -> Seq<Seq<char>> {
    seq![
        "["@ + c.id + "] "@ + shown_or_empty(c.created_at, "%Y-%m-%d %H:%M"@) + "  "@
            + padded_right(c.status, 12) + " "@ + c.model + " ("@ + c.task_type + ")  "@ + (match c.wall_ms {
            Some(t) => int_text(t as int) + "ms"@,
            None => ""@,
        }) + "  "@ + (match cost {
            Some(s) => "$"@ + s,
            None => ""@,
        }),
        "  "@ + clipped(c.objective, 80),
    ]
}

/// The cost in a row.
pub open spec fn row_cost(us: Seq<UsageV>, u: Option<int>) -> Option<Seq<char>> {
    match u {
        Some(k) => Some(us[k].cost_shown),
        None => None,
    }
}

/// The rows that a listing shows, the newest run first.
pub open spec fn rows_shown(cs: Seq<CompletionV>, us: Seq<UsageV>, since: i64, limit: nat) -> Seq<
    (int, Option<int>),
> {
    let rows = recent_rows(cs, us, since);
    let keys = rows.map_values(|r: (int, Option<int>)| (cs[r.0].created_at, 0i64));
    Seq::new(at_most(limit, rows.len()), |i: int| rows[ordered(keys)[i] as int])
}

/// The lines of some rows.
pub open spec fn rows_lines(
    cs: Seq<CompletionV>,
    us: Seq<UsageV>,
    rows: Seq<(int, Option<int>)>,
) -> Seq<Seq<char>>
    decreases rows.len(),
{
    if rows.len() == 0 {
        Seq::empty()
    } else {
        rows_lines(cs, us, rows.drop_last()) + run_lines(
            cs[rows.last().0],
            row_cost(us, rows.last().1),
        )
    }
}

/// A row as positions.
pub open spec fn row_view(r: (usize, Option<usize>)) -> (int, Option<int>) {
    (
        r.0 as int,
        match r.1 {
            Some(u) => Some(u as int),
            None => None,
        },
    )
}

/// Rows as positions.
pub open spec fn rows_view(v: Seq<(usize, Option<usize>)>) -> Seq<(int, Option<int>)> {
    v.map_values(|r: (usize, Option<usize>)| row_view(r))
}

/// Appends the rows of one run.
fn push_rows(out: &mut Vec<(usize, Option<usize>)>, at: usize, usage: &Vec<Usage>, id: &str)
    ensures
        rows_view(final(out)@) == rows_view(old(out)@) + run_rows(
            at as int,
            usage_view(usage@),
            id@,
        ),
        forall|k: int|
            old(out)@.len() <= k < final(out)@.len() ==> (#[trigger] final(out)@[k]).0 == at && (
            final(out)@[k].1 is Some ==> final(out)@[k].1->0 < usage@.len()),
        old(out)@.len() <= final(out)@.len(),
        forall|k: int| 0 <= k < old(out)@.len() ==> final(out)@[k] == #[trigger] old(out)@[k],
{
    let ghost us = usage_view(usage@);
    let ghost before = out@;
    let ghost pair = |u: int| (at as int, Some(u));
    let mut i: usize = 0;
    let mut any = false;
    assert(rows_view(out@) =~= rows_view(before) + uses_of(us.take(0), id@).map_values(pair));
    while i < usage.len()
        invariant
            us == usage_view(usage@),
            i <= usage@.len(),
            pair == (|u: int| (at as int, Some(u))),
            before.len() <= out@.len(),
            any == (uses_of(us.take(i as int), id@).len() > 0),
            rows_view(out@) == rows_view(before) + uses_of(us.take(i as int), id@).map_values(pair),
            forall|k: int| 0 <= k < before.len() ==> out@[k] == #[trigger] before[k],
            forall|k: int|
                before.len() <= k < out@.len() ==> (#[trigger] out@[k]).0 == at && (out@[k].1
                    is Some ==> out@[k].1->0 < usage@.len()),
        decreases usage@.len() - i,
    {
        let u = &usage[i];
        assert(us.take(i as int + 1).drop_last() =~= us.take(i as int));
        assert(us.take(i as int + 1).last() == u@);
        if same(u.completion_id.as_str(), id) {
            let ghost mid = out@;
            let ghost uses = uses_of(us.take(i as int), id@);
            out.push((at, Some(i)));
            any = true;
            assert(rows_view(out@) =~= rows_view(mid).push((at as int, Some(i as int))));
            assert(uses.push(i as int).map_values(pair) =~= uses.map_values(pair).push(
                (at as int, Some(i as int)),
            ));
            assert(rows_view(out@) =~= rows_view(before) + uses.push(i as int).map_values(pair));
        }
        i = i + 1;
    }
    assert(us.take(i as int) =~= us);
    if !any {
        assert(uses_of(us, id@).map_values(pair).len() == 0);
        let ghost mid = out@;
        assert(rows_view(mid) =~= rows_view(before));
        out.push((at, None));
        assert(rows_view(out@) =~= rows_view(before) + seq![(at as int, None::<int>)]);
    }
}

/// Lists the recent runs.
pub fn list(runs: &Vec<Completion>, usage: &Vec<Usage>, args: &ListArgs, now: i64) -> (r: Vec<String>)
    requires
        now - args.days * 86400 >= i64::MIN,
    ensures
        texts(r@) == rows_lines(
            runs_view(runs@),
            usage_view(usage@),
            rows_shown(
                runs_view(runs@),
                usage_view(usage@),
                (now - args.days * 86400) as i64,
                args.limit as nat,
            ),
        ),
{
    let since = crate::tasks::cutoff(now, args.days);
    let ghost cs = runs_view(runs@);
    let ghost us = usage_view(usage@);
    let mut rows: Vec<(usize, Option<usize>)> = Vec::new();
    let mut i: usize = 0;
    assert(rows_view(rows@) =~= recent_rows(cs.take(0), us, since));
    while i < runs.len()
        invariant
            cs == runs_view(runs@),
            us == usage_view(usage@),
            i <= runs@.len(),
            rows_view(rows@) == recent_rows(cs.take(i as int), us, since),
            forall|k: int|
                0 <= k < rows@.len() ==> (#[trigger] rows@[k]).0 < i && (rows@[k].1 is Some
                    ==> rows@[k].1->0 < usage@.len()),
        decreases runs@.len() - i,
    {
        let c = &runs[i];
        assert(cs.take(i as int + 1).drop_last() =~= cs.take(i as int));
        assert(cs.take(i as int + 1).last() == c@);
        if c.created_at >= since {
            let ghost before = rows@;
            push_rows(&mut rows, i, usage, c.id.as_str());
            assert forall|k: int| 0 <= k < rows@.len() implies (#[trigger] rows@[k]).0 < i + 1 && (
            rows@[k].1 is Some ==> rows@[k].1->0 < usage@.len()) by {
                if k < before.len() {
                    assert(rows@[k] == before[k]);
                }
            }
        }
        i = i + 1;
    }
    assert(cs.take(i as int) =~= cs);
    let ghost all = rows_view(rows@);
    let mut found: Vec<usize> = Vec::new();
    let mut keys: Vec<(i64, i64)> = Vec::new();
    let mut k: usize = 0;
    while k < rows.len()
        invariant
            k <= rows@.len(),
            cs == runs_view(runs@),
            all == rows_view(rows@),
            found@.len() == k,
            keys@.len() == k,
            forall|x: int|
                0 <= x < rows@.len() ==> (#[trigger] rows@[x]).0 < runs@.len() && (rows@[x].1
                    is Some ==> rows@[x].1->0 < usage@.len()),
            forall|x: int| 0 <= x < k ==> #[trigger] found@[x] == x,
            forall|x: int|
                0 <= x < k ==> #[trigger] keys@[x] == (cs[all[x].0].created_at, 0i64),
        decreases rows@.len() - k,
    {
        let at = rows[k].0;
        assert(cs[at as int] == runs@[at as int]@);
        found.push(k);
        keys.push((runs[at].created_at, 0));
        k = k + 1;
    }
    assert(keys@ =~= all.map_values(|r: (int, Option<int>)| (cs[r.0].created_at, 0i64)));
    let order = top(&found, &keys, args.limit);
    let ghost shown = rows_shown(cs, us, since, args.limit as nat);
    let mut out: Vec<String> = Vec::new();
    let mut j: usize = 0;
    assert(texts(out@) =~= rows_lines(cs, us, shown.take(0)));
    while j < order.len()
        invariant
            j <= order@.len(),
            order@.len() == shown.len(),
            cs == runs_view(runs@),
            us == usage_view(usage@),
            all == rows_view(rows@),
            found@.len() == rows@.len(),
            keys@.len() == found@.len(),
            forall|x: int| 0 <= x < found@.len() ==> #[trigger] found@[x] == x,
            forall|x: int|
                0 <= x < rows@.len() ==> (#[trigger] rows@[x]).0 < runs@.len() && (rows@[x].1
                    is Some ==> rows@[x].1->0 < usage@.len()),
            forall|x: int|
                0 <= x < order@.len() ==> ordered(keys@)[x] < found@.len() && #[trigger] order@[x]
                    == found@[ordered(keys@)[x] as int],
            forall|x: int|
                0 <= x < shown.len() ==> #[trigger] shown[x] == all[ordered(keys@)[x] as int],
            texts(out@) == rows_lines(cs, us, shown.take(j as int)),
        decreases order@.len() - j,
    {
        assert(order@[j as int] == found@[ordered(keys@)[j as int] as int]);
        let p = order[j];
        assert(p == ordered(keys@)[j as int]);
        let row = &rows[p];
        assert(all[p as int] == row_view(*row));
        assert(shown[j as int] == all[p as int]);
        assert(shown.take(j as int + 1).drop_last() =~= shown.take(j as int));
        assert(shown.take(j as int + 1).last() == shown[j as int]);
        let c = &runs[row.0];
        assert(cs[row.0 as int] == c@);
        let cost = match row.1 {
            Some(u) => {
                assert(us[u as int] == usage@[u as int]@);
                after("$", usage[u].cost_shown.as_str())
            },
            None => "".to_string(),
        };
        let took = match c.wall_ms {
            Some(t) => after(i64_text(t).as_str(), "ms"),
            None => "".to_string(),
        };
        let mut l = "[".to_string();
        l.append(c.id.as_str());
        l.append("] ");
        l.append(fmt_minute(c.created_at).as_str());
        l.append("  ");
        l.append(pad_right(c.status.as_str(), 12).as_str());
        l.append(" ");
        l.append(c.model.as_str());
        l.append(" (");
        l.append(c.task_type.as_str());
        l.append(")  ");
        l.append(took.as_str());
        l.append("  ");
        l.append(cost.as_str());
        let ghost before = texts(out@);
        let ghost first = l@;
        say(&mut out, l);
        let second = after("  ", clip(c.objective.as_str(), 80).as_str());
        let ghost next = second@;
        say(&mut out, second);
        assert(texts(out@) =~= before + seq![first, next]);
        j = j + 1;
    }
    assert(shown.take(j as int) =~= shown);
    out
}

} // verus!
