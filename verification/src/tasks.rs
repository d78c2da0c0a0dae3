//! Tasks: creating, changing, listing and resuming them.
use crate::dates::{fmt_minute, fmt_second, shown_or_empty};
use crate::glob::{is_like, like_match};
use crate::render::{after, nonempty_line, say, say_all, say_nonempty};
use crate::sort::{at_most, ordered, top};
use crate::text::{copy_opt, opt_text, pad_right, padded_right, same, texts};
use vstd::prelude::*;

verus! {

/// `agent task`.
#[derive(Debug)]
pub struct TaskCmd {
    pub action: TaskAction,
}

/// What to do with tasks.
#[derive(Debug)]
pub enum TaskAction {
    Create(CreateArgs),
    Update(UpdateArgs),
    List(ListArgs),
    Show(ShowArgs),
    Resume,
}

/// The arguments of creating a task.
#[derive(Debug)]
pub struct CreateArgs {
    pub objective: String,
    pub task_type: String,
    pub cwd: String,
    pub parent_id: Option<String>,
}

/// The arguments of changing a task.
#[derive(Debug)]
pub struct UpdateArgs {
    pub id: String,
    pub status: Option<String>,
    pub result: Option<String>,
    pub completion_id: Option<String>,
}

/// The arguments of listing tasks.
#[derive(Debug)]
pub struct ListArgs {
    pub status: Option<String>,
    pub cwd: Option<String>,
    pub limit: usize,
    pub days: u32,
}

/// The arguments of showing a task.
#[derive(Debug)]
pub struct ShowArgs {
    pub id: String,
}

/// A task.
#[derive(Debug)]
pub struct Task {
    pub id: String,
    pub status: String,
    pub objective: String,
    pub task_type: String,
    pub cwd: String,
    pub parent_task_id: Option<String>,
    pub completion_id: Option<String>,
    pub result: Option<String>,
    pub created_at: i64,
    pub updated_at: i64,
}

/// What a task is.
pub struct TaskV {
    pub id: Seq<char>,
    pub status: Seq<char>,
    pub objective: Seq<char>,
    pub task_type: Seq<char>,
    pub cwd: Seq<char>,
    pub parent_task_id: Option<Seq<char>>,
    pub completion_id: Option<Seq<char>>,
    pub result: Option<Seq<char>>,
    pub created_at: i64,
    pub updated_at: i64,
}

impl View for Task {
    type V = TaskV;

    open spec fn view(&self) -> TaskV {
        TaskV {
            id: self.id@,
            status: self.status@,
            objective: self.objective@,
            task_type: self.task_type@,
            cwd: self.cwd@,
            parent_task_id: opt_text(self.parent_task_id),
            completion_id: opt_text(self.completion_id),
            result: opt_text(self.result),
            created_at: self.created_at,
            updated_at: self.updated_at,
        }
    }
}

/// What a list of tasks is.
pub open spec fn tasks_view(v: Seq<Task>) -> Seq<TaskV> {
    v.map_values(|t: Task| t@)
}

/// The tasks.
#[derive(Debug)]
pub struct TaskStore {
    pub tasks: Vec<Task>,
}

/// The position of the task with an id; the first of several.
pub open spec fn task_at(ts: Seq<TaskV>, id: Seq<char>) -> Option<int>
    decreases ts.len(),
{
    if ts.len() == 0 {
        None
    } else {
        match task_at(ts.drop_last(), id) {
            Some(i) => Some(i),
            None => if ts.last().id == id {
                Some(ts.len() - 1)
            } else {
                None
            },
        }
    }
}

/// A task found among the first is the one found.
proof fn lemma_task_stays(ts: Seq<TaskV>, id: Seq<char>, n: int)
    requires
        0 <= n <= ts.len(),
        task_at(ts.take(n), id) is Some,
    ensures
        task_at(ts, id) == task_at(ts.take(n), id),
    decreases ts.len() - n,
{
    if n < ts.len() {
        assert(ts.take(n + 1).drop_last() =~= ts.take(n));
        lemma_task_stays(ts, id, n + 1);
    } else {
        assert(ts.take(n) =~= ts);
    }
}

/// The message for an id that no task has.
pub open spec fn no_task(id: Seq<char>) -> Seq<char> {
    "no task with id="@ + id
}

/// A task as it is created.
pub open spec fn new_task(a: CreateArgs, id: Seq<char>, ts: i64) -> TaskV {
    TaskV {
        id,
        status: "pending"@,
        objective: a.objective@,
        task_type: a.task_type@,
        cwd: a.cwd@,
        parent_task_id: opt_text(a.parent_id),
        completion_id: None,
        result: None,
        created_at: ts,
        updated_at: ts,
    }
}

/// A text, or what was there.
pub open spec fn or_kept(o: Option<String>, kept: Seq<char>) -> Seq<char> {
    match o {
        Some(s) => s@,
        None => kept,
    }
}

/// An optional text, or what was there.
pub open spec fn or_kept_opt(o: Option<String>, kept: Option<Seq<char>>) -> Option<Seq<char>> {
    match o {
        Some(s) => Some(s@),
        None => kept,
    }
}

/// Whether a change gives any field.
pub open spec fn gives_any(a: UpdateArgs) -> bool {
    a.status is Some || a.result is Some || a.completion_id is Some
}

/// The tasks after a change. A status is whatever text is given. An id that no
/// task has is refused; a change without any field changes nothing.
pub open spec fn task_changed(ts: Seq<TaskV>, a: UpdateArgs, now: i64) -> Result<
    Seq<TaskV>,
    Seq<char>,
> {
    if !gives_any(a) {
        Ok(ts)
    } else {
        match task_at(ts, a.id@) {
            None => Err(no_task(a.id@)),
            Some(i) => Ok(
                ts.update(
                    i,
                    TaskV {
                        status: or_kept(a.status, ts[i].status),
                        result: or_kept_opt(a.result, ts[i].result),
                        completion_id: or_kept_opt(a.completion_id, ts[i].completion_id),
                        updated_at: now,
                        ..ts[i]
                    },
                ),
            ),
        }
    }
}

impl TaskStore {
    /// What the tasks are.
    pub open spec fn all(self) -> Seq<TaskV> {
        tasks_view(self.tasks@)
    }

    /// No tasks.
    pub fn new() -> (r: TaskStore)
        ensures
            r.all().len() == 0,
    {
        TaskStore { tasks: Vec::new() }
    }

    /// The position of the task with an id.
    pub fn find(&self, id: &str) -> (r: Option<usize>)
        ensures
            match r {
                Some(i) => i < self.tasks@.len() && task_at(self.all(), id@) == Some(i as int),
                None => task_at(self.all(), id@) is None,
            },
    {
        let ghost ts = self.all();
        let mut i: usize = 0;
        while i < self.tasks.len()
            invariant
                ts == self.all(),
                i <= self.tasks@.len(),
                task_at(ts.take(i as int), id@) is None,
            decreases self.tasks@.len() - i,
        {
            assert(ts.take(i as int + 1).drop_last() =~= ts.take(i as int));
            assert(ts.take(i as int + 1).last() == self.tasks@[i as int]@);
            if same(self.tasks[i].id.as_str(), id) {
                proof {
                    lemma_task_stays(ts, id@, i as int + 1);
                }
                return Some(i);
            }
            i = i + 1;
        }
        assert(ts.take(i as int) =~= ts);
        None
    }

    /// Creates a task under an id that the caller drew; an id that is taken is
    /// refused.
    pub fn create(&mut self, args: &CreateArgs, id: &str, ts: i64) -> (r: Result<(), String>)
        ensures
            match r {
                Ok(_) => task_at(old(self).all(), id@) is None && final(self).all() == old(
                    self,
                ).all().push(new_task(*args, id@, ts)),
                Err(e) => task_at(old(self).all(), id@) is Some && final(self).all() == old(
                    self,
                ).all() && e@ == "UNIQUE constraint failed: tasks.id"@,
            },
    {
        if self.find(id).is_some() {
            return Err("UNIQUE constraint failed: tasks.id".to_string());
        }
        let t = Task {
            id: id.to_owned(),
            status: "pending".to_string(),
            objective: args.objective.clone(),
            task_type: args.task_type.clone(),
            cwd: args.cwd.clone(),
            parent_task_id: copy_opt(&args.parent_id),
            completion_id: None,
            result: None,
            created_at: ts,
            updated_at: ts,
        };
        let ghost before = self.tasks@;
        self.tasks.push(t);
        assert(tasks_view(self.tasks@) =~= tasks_view(before).push(t@));
        Ok(())
    }

    /// Changes the given fields of a task.
    pub fn update(&mut self, args: &UpdateArgs, now: i64) -> (r: Result<(), String>)
        ensures
            match r {
                Ok(_) => task_changed(old(self).all(), *args, now) == Ok::<Seq<TaskV>, Seq<char>>(
                    final(self).all(),
                ),
                Err(e) => task_changed(old(self).all(), *args, now) == Err::<
                    Seq<TaskV>,
                    Seq<char>,
                >(e@) && final(self).all() == old(self).all(),
            },
    {
        if args.status.is_none() && args.result.is_none() && args.completion_id.is_none() {
            return Ok(());
        }
        let i = match self.find(args.id.as_str()) {
            Some(i) => i,
            None => {
                return Err(after("no task with id=", args.id.as_str()));
            },
        };
        let old_task = &self.tasks[i];
        assert(self.all()[i as int] == old_task@);
        let status = match &args.status {
            Some(s) => s.clone(),
            None => old_task.status.clone(),
        };
        let result = match &args.result {
            Some(s) => Some(s.clone()),
            None => copy_opt(&old_task.result),
        };
        let completion_id = match &args.completion_id {
            Some(s) => Some(s.clone()),
            None => copy_opt(&old_task.completion_id),
        };
        let t = Task {
            id: old_task.id.clone(),
            status,
            objective: old_task.objective.clone(),
            task_type: old_task.task_type.clone(),
            cwd: old_task.cwd.clone(),
            parent_task_id: copy_opt(&old_task.parent_task_id),
            completion_id,
            result,
            created_at: old_task.created_at,
            updated_at: now,
        };
        let ghost before = self.tasks@;
        self.tasks.set(i, t);
        assert(tasks_view(self.tasks@) =~= tasks_view(before).update(i as int, t@));
        Ok(())
    }
}

/// A change touches only the task it names, and of that one only the fields that
/// are given and the time of the change.
pub proof fn law_change_touches_one_task(ts: Seq<TaskV>, a: UpdateArgs, now: i64)
    requires
        task_changed(ts, a, now) is Ok,
    ensures
        ({
            let us = task_changed(ts, a, now)->Ok_0;
            &&& us.len() == ts.len()
            &&& forall|i: int|
                0 <= i < ts.len() ==> (#[trigger] us[i]) == (TaskV {
                    status: us[i].status,
                    result: us[i].result,
                    completion_id: us[i].completion_id,
                    updated_at: us[i].updated_at,
                    ..ts[i]
                })
            &&& forall|i: int|
                0 <= i < ts.len() ==> ((#[trigger] us[i]) == ts[i] || ts[i].id == a.id@)
            &&& a.status is None ==> forall|i: int|
                0 <= i < ts.len() ==> (#[trigger] us[i]).status == ts[i].status
            &&& a.result is None ==> forall|i: int|
                0 <= i < ts.len() ==> (#[trigger] us[i]).result == ts[i].result
            &&& a.completion_id is None ==> forall|i: int|
                0 <= i < ts.len() ==> (#[trigger] us[i]).completion_id == ts[i].completion_id
        }),
{
    lemma_task_at(ts, a.id@);
}

/// A task found stands where it was found.
proof fn lemma_task_at(ts: Seq<TaskV>, id: Seq<char>)
    ensures
        match task_at(ts, id) {
            Some(i) => 0 <= i < ts.len() && ts[i].id == id,
            None => true,
        },
    decreases ts.len(),
{
    if ts.len() > 0 {
        lemma_task_at(ts.drop_last(), id);
    }
}

/// What a listing asks of a task.
pub struct TaskQueryV {
    pub since: Option<i64>,
    pub status: Option<Seq<char>>,
    pub cwd: Option<Seq<char>>,
    pub resumable: bool,
}

/// What a listing asks of a task.
#[derive(Debug)]
pub struct TaskQuery {
    pub since: Option<i64>,
    pub status: Option<String>,
    pub cwd: Option<String>,
    pub resumable: bool,
}

impl View for TaskQuery {
    type V = TaskQueryV;

    open spec fn view(&self) -> TaskQueryV {
        TaskQueryV {
            since: self.since,
            status: opt_text(self.status),
            cwd: opt_text(self.cwd),
            resumable: self.resumable,
        }
    }
}

/// Whether a task is asked for. The working directory is a pattern of the query
/// language, with anything round it.
pub open spec fn asked_for(t: TaskV, q: TaskQueryV) -> bool {
    &&& q.since is Some ==> t.updated_at >= q.since->0
    &&& q.status is Some ==> t.status == q.status->0
    &&& q.cwd is Some ==> is_like(t.cwd, "%"@ + q.cwd->0 + "%"@)
    &&& q.resumable ==> t.status == "in_progress"@ || t.status == "suspended"@
}

/// The positions of the tasks that are asked for.
pub open spec fn asked_positions(ts: Seq<TaskV>, q: TaskQueryV) -> Seq<int>
    decreases ts.len(),
{
    if ts.len() == 0 {
        Seq::empty()
    } else {
        let init = asked_positions(ts.drop_last(), q);
        if asked_for(ts.last(), q) {
            init.push(ts.len() - 1)
        } else {
            init
        }
    }
}

/// The times of the tasks at some positions, by which they are ordered.
pub open spec fn task_keys(ts: Seq<TaskV>, at: Seq<int>) -> Seq<(i64, i64)> {
    at.map_values(|i: int| (ts[i].updated_at, 0i64))
}

/// The tasks that are asked for, the newest first, at most `limit`.
pub open spec fn tasks_shown(ts: Seq<TaskV>, q: TaskQueryV, limit: nat) -> Seq<TaskV> {
    let at = asked_positions(ts, q);
    Seq::new(at_most(limit, at.len()), |i: int| ts[at[ordered(task_keys(ts, at))[i] as int]])
}

/// What the tasks at some positions are.
pub open spec fn tasks_taken(ts: Seq<TaskV>, at: Seq<usize>) -> Seq<TaskV> {
    at.map_values(|i: usize| ts[i as int])
}

/// The first line of a listed task.
pub open spec fn task_head(t: TaskV) -> Seq<char> {
    "["@ + t.id + "] "@ + padded_right(t.status, 12) + " ("@ + t.task_type + ") "@ + shown_or_empty(
        t.updated_at,
        "%Y-%m-%d %H:%M"@,
    )
}

/// The lines of a listed task.
pub open spec fn list_block(t: TaskV) -> Seq<Seq<char>> {
    seq![
        task_head(t),
        "  "@ + t.objective + (if t.cwd.len() == 0 {
            Seq::empty()
        } else {
            "  cwd: "@ + t.cwd
        }),
    ]
}

/// The lines of a task to resume.
pub open spec fn resume_block(t: TaskV) -> Seq<Seq<char>> {
    seq![task_head(t), "  "@ + t.objective] + nonempty_line("  cwd: "@, t.cwd)
}

/// The lines of some tasks.
pub open spec fn task_blocks(ts: Seq<TaskV>, resume: bool) -> Seq<Seq<char>>
    decreases ts.len(),
{
    if ts.len() == 0 {
        Seq::empty()
    } else {
        task_blocks(ts.drop_last(), resume) + (if resume {
            resume_block(ts.last())
        } else {
            list_block(ts.last())
        })
    }
}

/// Whether a task is asked for.
fn is_asked_for(t: &Task, q: &TaskQuery) -> (r: bool)
    ensures
        r == asked_for(t@, q@),
{
    let recent = match q.since {
        Some(s) => t.updated_at >= s,
        None => true,
    };
    let status = match &q.status {
        Some(s) => same(t.status.as_str(), s.as_str()),
        None => true,
    };
    let cwd = match &q.cwd {
        Some(c) => {
            let mut p = "%".to_string();
            p.append(c.as_str());
            p.append("%");
            like_match(t.cwd.as_str(), p.as_str())
        },
        None => true,
    };
    let resumable = !q.resumable || same(t.status.as_str(), "in_progress") || same(
        t.status.as_str(),
        "suspended",
    );
    recent && status && cwd && resumable
}

/// Writes the first line of a listed task.
fn write_head(t: &Task) -> (r: String)
    ensures
        r@ == task_head(t@),
{
    let mut l = "[".to_string();
    l.append(t.id.as_str());
    l.append("] ");
    l.append(pad_right(t.status.as_str(), 12).as_str());
    l.append(" (");
    l.append(t.task_type.as_str());
    l.append(") ");
    l.append(fmt_minute(t.updated_at).as_str());
    l
}

/// Writes the lines of a task.
fn write_task(t: &Task, resume: bool) -> (r: Vec<String>)
    ensures
        texts(r@) == (if resume {
            resume_block(t@)
        } else {
            list_block(t@)
        }),
{
    let mut out: Vec<String> = Vec::new();
    out.push(write_head(t));
    if resume {
        out.push(after("  ", t.objective.as_str()));
        assert(texts(out@) =~= seq![task_head(t@), "  "@ + t@.objective]);
        say_nonempty(&mut out, "  cwd: ", t.cwd.as_str());
    } else {
        let mut cwd = String::new();
        if !t.cwd.as_str().is_empty() {
            cwd = after("  cwd: ", t.cwd.as_str());
        }
        assert(cwd@ =~= (if t@.cwd.len() == 0 {
            Seq::empty()
        } else {
            "  cwd: "@ + t@.cwd
        }));
        let mut l = "  ".to_string();
        l.append(t.objective.as_str());
        l.append(cwd.as_str());
        out.push(l);
        assert(texts(out@) =~= list_block(t@));
    }
    out
}

/// The start of a span of days before now.
pub fn cutoff(now: i64, days: u32) -> (r: i64)
    requires
        now - days * 86400 >= i64::MIN,
    ensures
        r == now - days * 86400,
{
    now - (days as i64) * 86400
}

impl TaskStore {
    /// The positions of the tasks that are asked for, the newest first.
    pub fn select(&self, q: &TaskQuery, limit: usize) -> (r: Vec<usize>)
        ensures
            forall|i: int| 0 <= i < r@.len() ==> (#[trigger] r@[i]) < self.tasks@.len(),
            tasks_taken(self.all(), r@) == tasks_shown(self.all(), q@, limit as nat),
    {
        let ghost ts = self.all();
        let mut found: Vec<usize> = Vec::new();
        let mut keys: Vec<(i64, i64)> = Vec::new();
        let ghost mut at: Seq<int> = Seq::empty();
        let mut i: usize = 0;
        assert(at =~= asked_positions(ts.take(0), q@));
        while i < self.tasks.len()
            invariant
                ts == self.all(),
                i <= self.tasks@.len(),
                at == asked_positions(ts.take(i as int), q@),
                found@.len() == at.len(),
                keys@.len() == at.len(),
                forall|k: int| 0 <= k < at.len() ==> found@[k] == #[trigger] at[k],
                forall|k: int| 0 <= k < at.len() ==> 0 <= #[trigger] at[k] < i,
                forall|k: int|
                    0 <= k < at.len() ==> #[trigger] keys@[k] == (ts[at[k]].updated_at, 0i64),
            decreases self.tasks@.len() - i,
        {
            let t = &self.tasks[i];
            assert(ts[i as int] == t@);
            assert(ts.take(i as int + 1).drop_last() =~= ts.take(i as int));
            assert(ts.take(i as int + 1).last() == t@);
            if is_asked_for(t, q) {
                found.push(i);
                keys.push((t.updated_at, 0));
                proof {
                    at = at.push(i as int);
                }
            }
            i = i + 1;
        }
        assert(ts.take(i as int) =~= ts);
        assert(keys@ =~= task_keys(ts, at));
        let out = top(&found, &keys, limit);
        assert forall|x: int| 0 <= x < out@.len() implies (#[trigger] out@[x])
            < self.tasks@.len() by {
            let p = ordered(keys@)[x] as int;
            assert(found@[p] == at[p]);
        }
        assert(tasks_taken(ts, out@) =~= tasks_shown(ts, q@, limit as nat));
        out
    }

    /// Writes the tasks at some positions.
    fn write_tasks(&self, at: &Vec<usize>, resume: bool) -> (r: Vec<String>)
        requires
            forall|i: int| 0 <= i < at@.len() ==> (#[trigger] at@[i]) < self.tasks@.len(),
        ensures
            texts(r@) == task_blocks(tasks_taken(self.all(), at@), resume),
    {
        let ghost ts = tasks_taken(self.all(), at@);
        let mut out: Vec<String> = Vec::new();
        let mut i: usize = 0;
        assert(texts(out@) =~= task_blocks(ts.take(0), resume));
        while i < at.len()
            invariant
                i <= at@.len(),
                ts == tasks_taken(self.all(), at@),
                forall|x: int| 0 <= x < at@.len() ==> (#[trigger] at@[x]) < self.tasks@.len(),
                texts(out@) == task_blocks(ts.take(i as int), resume),
            decreases at@.len() - i,
        {
            let t = &self.tasks[at[i]];
            assert(ts.take(i as int + 1).drop_last() =~= ts.take(i as int));
            assert(ts.take(i as int + 1).last() == t@);
            say_all(&mut out, write_task(t, resume));
            i = i + 1;
        }
        assert(ts.take(i as int) =~= ts);
        out
    }

    /// Lists the tasks changed in the last days.
    pub fn list(&self, args: &ListArgs, now: i64) -> (r: Vec<String>)
        requires
            now - args.days * 86400 >= i64::MIN,
        ensures
            texts(r@) == task_blocks(
                tasks_shown(
                    self.all(),
                    TaskQueryV {
                        since: Some((now - args.days * 86400) as i64),
                        status: opt_text(args.status),
                        cwd: opt_text(args.cwd),
                        resumable: false,
                    },
                    args.limit as nat,
                ),
                false,
            ),
    {
        let q = TaskQuery {
            since: Some(cutoff(now, args.days)),
            status: copy_opt(&args.status),
            cwd: copy_opt(&args.cwd),
            resumable: false,
        };
        let at = self.select(&q, args.limit);
        self.write_tasks(&at, false)
    }

    /// Lists the tasks that can be resumed.
    pub fn resume(&self) -> (r: Vec<String>)
        ensures
            texts(r@) == ({
                let ts = tasks_shown(
                    self.all(),
                    TaskQueryV { since: None, status: None, cwd: None, resumable: true },
                    self.all().len(),
                );
                if ts.len() == 0 {
                    seq!["(no resumable tasks)"@]
                } else {
                    task_blocks(ts, true)
                }
            }),
    {
        let q = TaskQuery { since: None, status: None, cwd: None, resumable: true };
        let at = self.select(&q, self.tasks.len());
        assert(tasks_taken(self.all(), at@).len() == at@.len());
        if at.len() == 0 {
            let mut out: Vec<String> = Vec::new();
            out.push("(no resumable tasks)".to_string());
            assert(texts(out@) =~= seq!["(no resumable tasks)"@]);
            return out;
        }
        self.write_tasks(&at, true)
    }

    /// Shows a task in full.
    pub fn show(&self, args: &ShowArgs) -> (r: Result<Vec<String>, String>)
        ensures
            match task_at(self.all(), args.id@) {
                None => r is Err && r->Err_0@ == no_task(args.id@),
                Some(i) => r is Ok && texts(r->Ok_0@) == full_task(self.all()[i]),
            },
    {
        let i = match self.find(args.id.as_str()) {
            Some(i) => i,
            None => {
                return Err(after("no task with id=", args.id.as_str()));
            },
        };
        let t = &self.tasks[i];
        assert(self.all()[i as int] == t@);
        let mut out: Vec<String> = Vec::new();
        out.push(after("id:          ", t.id.as_str()));
        out.push(after("status:      ", t.status.as_str()));
        out.push(after("type:        ", t.task_type.as_str()));
        out.push(after("objective:   ", t.objective.as_str()));
        assert(texts(out@) =~= seq![
            "id:          "@ + t@.id,
            "status:      "@ + t@.status,
            "type:        "@ + t@.task_type,
            "objective:   "@ + t@.objective,
        ]);
        say_nonempty(&mut out, "cwd:         ", t.cwd.as_str());
        say_given(&mut out, "parent:      ", &t.parent_task_id);
        say_given(&mut out, "completion:  ", &t.completion_id);
        let ghost before = texts(out@);
        say(&mut out, after("created:     ", fmt_second(t.created_at).as_str()));
        say(&mut out, after("updated:     ", fmt_second(t.updated_at).as_str()));
        let ghost times = seq![
            "created:     "@ + shown_or_empty(t@.created_at, "%Y-%m-%d %H:%M:%S"@),
            "updated:     "@ + shown_or_empty(t@.updated_at, "%Y-%m-%d %H:%M:%S"@),
        ];
        assert(texts(out@) =~= before + times);
        let ghost dated = texts(out@);
        if let Some(res) = &t.result {
            say(&mut out, "result:".to_string());
            say(&mut out, res.clone());
        }
        assert(texts(out@) =~= dated + (match t@.result {
            Some(x) => seq!["result:"@, x],
            None => Seq::empty(),
        }));
        Ok(out)
    }
}

/// A line for a text that is given.
pub open spec fn given_line(lead: Seq<char>, o: Option<Seq<char>>) -> Seq<Seq<char>> {
    match o {
        Some(s) => seq![lead + s],
        None => Seq::empty(),
    }
}

/// Appends a line for a text that is given.
fn say_given(out: &mut Vec<String>, lead: &str, o: &Option<String>)
    ensures
        texts(final(out)@) == texts(old(out)@) + given_line(lead@, opt_text(*o)),
{
    let ghost before = texts(out@);
    if let Some(s) = o {
        say(out, after(lead, s.as_str()));
        assert(texts(out@) =~= before + seq![lead@ + s@]);
    } else {
        assert(texts(out@) =~= before + Seq::<Seq<char>>::empty());
    }
}

/// A task in full.
pub open spec fn full_task(t: TaskV) -> Seq<Seq<char>> {
    seq![
        "id:          "@ + t.id,
        "status:      "@ + t.status,
        "type:        "@ + t.task_type,
        "objective:   "@ + t.objective,
    ] + nonempty_line("cwd:         "@, t.cwd) + given_line("parent:      "@, t.parent_task_id)
        + given_line("completion:  "@, t.completion_id) + seq![
        "created:     "@ + shown_or_empty(t.created_at, "%Y-%m-%d %H:%M:%S"@),
        "updated:     "@ + shown_or_empty(t.updated_at, "%Y-%m-%d %H:%M:%S"@),
    ] + (match t.result {
        Some(x) => seq!["result:"@, x],
        None => Seq::empty(),
    })
}

} // verus!
