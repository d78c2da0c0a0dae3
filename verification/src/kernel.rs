//! Looking after the identity kernel and the log of what sessions were given;
//! exporting memories.
use crate::context::kernel_of;
use crate::dates::fmt_ts;
use crate::json::{fixed_shown, json_parsed, str_field, trees, Json, JsonV};
use crate::query::{like, taken};
use crate::render::{after, day, memory_trust_label, nonempty_line, say, say_all, say_nonempty, session_label};
use crate::rows::{Memory, MemoryV};
use crate::sort::{at_most, is_order, order_desc, ordered};
use crate::sql::ScopeFilter;
use crate::store::Store;
use crate::supersede::CorrectArgs;
use crate::text::{
    byte_len, comes_before, decimal, holds, i64_text, int_text, same, split_char, split_on,
    text_before, texts, to_ascii_lower, u64_text, usize_text,
};
use vstd::prelude::*;

verus! {

/// Looking after the identity kernel.
#[derive(Debug)]
pub struct KernelCmd {
    pub action: KernelAction,
}

/// What to do with the identity kernel.
#[derive(Debug)]
pub enum KernelAction {
    Show(KernelShowArgs),
    Demote(KernelDemoteArgs),
    Promote(KernelPromoteArgs),
    Supersede(CorrectArgs),
}

/// The arguments of showing the kernel.
#[derive(Debug)]
pub struct KernelShowArgs {
    pub scope: Option<String>,
}

/// The arguments of taking a memory out of the kernel.
#[derive(Debug)]
pub struct KernelDemoteArgs {
    pub id: String,
    pub reason: String,
}

/// The arguments of taking a memory into the kernel.
#[derive(Debug)]
pub struct KernelPromoteArgs {
    pub id: String,
    pub reason: String,
}

/// The arguments of showing what sessions were given.
#[derive(Debug)]
pub struct ContextStatsArgs {
    pub n: usize,
}

/// One entry of the log of what sessions were given.
#[derive(Debug)]
pub struct ContextLogRow {
    pub id: i64,
    pub created_at: i64,
    pub cwd: String,
    pub signals: String,
    pub n_scored: i64,
    pub returned: String,
}

/// What such an entry is.
pub struct ContextLogV {
    pub id: i64,
    pub created_at: i64,
    pub cwd: Seq<char>,
    pub signals: Seq<char>,
    pub n_scored: i64,
    pub returned: Seq<char>,
}

impl View for ContextLogRow {
    type V = ContextLogV;

    open spec fn view(&self) -> ContextLogV {
        ContextLogV {
            id: self.id,
            created_at: self.created_at,
            cwd: self.cwd@,
            signals: self.signals@,
            n_scored: self.n_scored,
            returned: self.returned@,
        }
    }
}

/// What a log is.
pub open spec fn log_view(v: Seq<ContextLogRow>) -> Seq<ContextLogV> {
    v.map_values(|r: ContextLogRow| r@)
}

/// The items of a JSON text that is an array; none for any other text.
pub open spec fn array_items(text: Seq<char>) -> Seq<JsonV> {
    match json_parsed(text) {
        Some(JsonV::Array(a)) => a,
        _ => Seq::empty(),
    }
}

/// Whether an entry records what an identity session was given.
pub open spec fn identity_entry(r: ContextLogV) -> bool {
    like(r.signals, "tier:identity"@) && r.returned != ""@ && r.returned != "[]"@
}

/// How often some items name a memory.
pub open spec fn count_named(items: Seq<JsonV>, id: Seq<char>) -> nat
    decreases items.len(),
{
    if items.len() == 0 {
        0
    } else {
        count_named(items.drop_last(), id) + (if str_field(items.last(), "id"@) == Some(id) {
            1nat
        } else {
            0nat
        })
    }
}

/// A count that stops at the largest number.
pub open spec fn stopped(n: int) -> int {
    if n > u64::MAX {
        u64::MAX as int
    } else {
        n
    }
}

/// How often a memory was given to identity sessions, and when last; zero and
/// zero where it never was.
pub open spec fn injections(log: Seq<ContextLogV>, id: Seq<char>) -> (int, i64)
    decreases log.len(),
{
    if log.len() == 0 {
        (0, 0)
    } else {
        let (n, last) = injections(log.drop_last(), id);
        let r = log.last();
        let k = if identity_entry(r) {
            count_named(array_items(r.returned), id)
        } else {
            0
        };
        if k == 0 {
            (n, last)
        } else {
            (
                stopped(n + k),
                if n == 0 || r.created_at > last {
                    r.created_at
                } else {
                    last
                },
            )
        }
    }
}

/// Counts how often some items name a memory.
fn count_items(items: &Vec<Json>, id: &str) -> (r: usize)
    ensures
        r == count_named(trees(items@), id@),
{
    let ghost all = trees(items@);
    let mut n: usize = 0;
    let mut i: usize = 0;
    assert(all.take(0).len() == 0);
    while i < items.len()
        invariant
            all == trees(items@),
            i <= items@.len(),
            n <= i,
            n == count_named(all.take(i as int), id@),
        decreases items@.len() - i,
    {
        assert(all.take(i as int + 1).drop_last() =~= all.take(i as int));
        assert(all.take(i as int + 1).last() == items@[i as int].tree());
        if let Some(s) = items[i].str_at("id") {
            if same(s, id) {
                n = n + 1;
            }
        }
        i = i + 1;
    }
    assert(all.take(i as int) =~= all);
    n
}

/// Whether a text holds a part, in whatever case.
fn is_like(s: &str, part: &str) -> (r: bool)
    ensures
        r == like(s@, part@),
{
    holds(to_ascii_lower(s).as_str(), to_ascii_lower(part).as_str())
}

/// Counts how often a memory was given to identity sessions.
pub fn kernel_injection_stats(log: &Vec<ContextLogRow>, id: &str) -> (r: (u64, i64))
    ensures
        (r.0 as int, r.1) == injections(log_view(log@), id@),
{
    let ghost all = log_view(log@);
    let mut n: u64 = 0;
    let mut last: i64 = 0;
    let mut i: usize = 0;
    assert(all.take(0).len() == 0);
    while i < log.len()
        invariant
            all == log_view(log@),
            i <= log@.len(),
            (n as int, last) == injections(all.take(i as int), id@),
        decreases log@.len() - i,
    {
        let r = &log[i];
        assert(all.take(i as int + 1).drop_last() =~= all.take(i as int));
        assert(all.take(i as int + 1).last() == r@);
        let mut k: usize = 0;
        if is_like(r.signals.as_str(), "tier:identity") && !same(r.returned.as_str(), "") && !same(
            r.returned.as_str(),
            "[]",
        ) {
            if let Some(Json::Array(items)) = Json::parse(r.returned.as_str()) {
                k = count_items(&items, id);
            }
        }
        if k > 0 {
            if n == 0 || r.created_at > last {
                last = r.created_at;
            }
            let more: u64 = k as u64;
            n = if more > u64::MAX - n {
                u64::MAX
            } else {
                n + more
            };
        }
        i = i + 1;
    }
    assert(all.take(i as int) =~= all);
    (n, last)
}

/// A sum of lengths that stops at the largest number.
pub open spec fn summed(a: int, b: int) -> int {
    if a + b > usize::MAX {
        usize::MAX as int
    } else {
        a + b
    }
}

/// Adds lengths.
fn add_lengths(a: usize, b: usize) -> (r: usize)
    ensures
        r == summed(a as int, b as int),
{
    if a > usize::MAX - b {
        usize::MAX
    } else {
        a + b
    }
}

/// How many bytes a memory of the kernel takes: the user's in full, a rule by
/// name and description.
pub open spec fn kernel_bytes(m: MemoryV, full: bool) -> int {
    if full {
        byte_len(m.content) as int
    } else {
        summed(byte_len(m.name) as int, byte_len(m.description) as int)
    }
}

/// How many bytes a memory of the kernel takes.
fn measure(m: &Memory, full: bool) -> (r: usize)
    ensures
        r == kernel_bytes(m@, full),
{
    if full {
        m.content.as_str().as_bytes().len()
    } else {
        add_lengths(
            m.name.as_str().as_bytes().len(),
            m.description.as_str().as_bytes().len(),
        )
    }
}

/// The lines of a memory of the kernel.
pub open spec fn kernel_lines(m: MemoryV, full: bool, log: Seq<ContextLogV>) -> Seq<Seq<char>> {
    let (count, last) = injections(log, m.id);
    seq![
        "  "@ + m.id + "  ~"@ + decimal((kernel_bytes(m, full) / 4) as nat) + " tok  injected "@
            + decimal(count as nat) + "x (logged"@ + (if last > 0 {
            ", last "@ + day(last)
        } else {
            Seq::empty()
        }) + ")  ["@ + session_label(m) + "]"@,
        "      "@ + m.name,
    ]
}

/// The lines of some memories of the kernel.
pub open spec fn kernel_rows(ms: Seq<MemoryV>, full: bool, log: Seq<ContextLogV>) -> Seq<Seq<char>>
    decreases ms.len(),
{
    if ms.len() == 0 {
        Seq::empty()
    } else {
        kernel_rows(ms.drop_last(), full, log) + kernel_lines(ms.last(), full, log)
    }
}

/// How many bytes some memories of the kernel take, behind `from`.
pub open spec fn kernel_total(ms: Seq<MemoryV>, full: bool, from: int) -> int
    decreases ms.len(),
{
    if ms.len() == 0 {
        from
    } else {
        summed(kernel_total(ms.drop_last(), full, from), kernel_bytes(ms.last(), full))
    }
}

/// A part of the kernel's list, with its title where there is any.
pub open spec fn kernel_part(
    title: Seq<char>,
    ms: Seq<MemoryV>,
    full: bool,
    log: Seq<ContextLogV>,
) -> Seq<Seq<char>> {
    if ms.len() == 0 {
        Seq::empty()
    } else {
        seq![title] + kernel_rows(ms, full, log)
    }
}

/// The kernel as its keeper sees it.
pub open spec fn kernel_shown(
    user: Seq<MemoryV>,
    rules: Seq<MemoryV>,
    log: Seq<ContextLogV>,
) -> Seq<Seq<char>> {
    if user.len() == 0 && rules.len() == 0 {
        seq![
            "identity kernel is empty — nothing carries the 'identity' tag in scope. Promote rows with `agent memory kernel promote <id>`."@,
        ]
    } else {
        seq![
            "## Identity Kernel — "@ + decimal(user.len()) + " user + "@ + decimal(rules.len())
                + " rules\n"@,
        ] + kernel_part("USER PROFILE (injects full content)"@, user, true, log) + kernel_part(
            "STANDING RULES (inject name + description)"@,
            rules,
            false,
            log,
        ) + seq![
            "\n≈ "@ + decimal(
                (kernel_total(rules, false, kernel_total(user, true, 0)) / 4) as nat,
            )
                + " tokens total (chars/4). Curate: `kernel demote <id> --reason ...`, `kernel promote <id>`, `kernel supersede <old> --with <new>`."@,
        ]
    }
}

impl Store {
    /// Writes the lines of a memory of the kernel.
    fn kernel_row(&self, m: &Memory, full: bool, log: &Vec<ContextLogRow>) -> (r: Vec<String>)
        ensures
            texts(r@) == kernel_lines(m@, full, log_view(log@)),
    {
        let (count, last) = kernel_injection_stats(log, m.id.as_str());
        let size = measure(m, full);
        let mut when = String::new();
        if last > 0 {
            when = after(", last ", fmt_ts(last).as_str());
        }
        assert(when@ =~= (if last > 0 {
            ", last "@ + day(last)
        } else {
            Seq::empty()
        }));
        let mut l = "  ".to_string();
        l.append(m.id.as_str());
        l.append("  ~");
        l.append(usize_text(size / 4).as_str());
        l.append(" tok  injected ");
        l.append(u64_text(count).as_str());
        l.append("x (logged");
        l.append(when.as_str());
        l.append(")  [");
        l.append(memory_trust_label(m).as_str());
        l.append("]");
        let mut out: Vec<String> = Vec::new();
        out.push(l);
        out.push(after("      ", m.name.as_str()));
        assert(texts(out@) =~= kernel_lines(m@, full, log_view(log@)));
        out
    }

    /// Writes a part of the kernel's list, and adds up its bytes.
    fn kernel_list(
        &self,
        title: &str,
        at: &Vec<usize>,
        full: bool,
        log: &Vec<ContextLogRow>,
        from: usize,
    ) -> (r: (Vec<String>, usize))
        requires
            forall|i: int| 0 <= i < at@.len() ==> (#[trigger] at@[i]) < self.memories@.len(),
        ensures
            texts(r.0@) == kernel_part(
                title@,
                taken(self@.memories, at@),
                full,
                log_view(log@),
            ),
            r.1 == kernel_total(taken(self@.memories, at@), full, from as int),
    {
        let ghost ms = taken(self@.memories, at@);
        let mut out: Vec<String> = Vec::new();
        assert(ms.len() == at@.len());
        if at.len() == 0 {
            assert(texts(out@) =~= Seq::<Seq<char>>::empty());
            return (out, from);
        }
        out.push(title.to_owned());
        let mut total: usize = from;
        let mut i: usize = 0;
        assert(ms.take(0).len() == 0);
        assert(texts(out@) =~= seq![title@] + kernel_rows(ms.take(0), full, log_view(log@)));
        while i < at.len()
            invariant
                i <= at@.len(),
                ms == taken(self@.memories, at@),
                forall|x: int| 0 <= x < at@.len() ==> (#[trigger] at@[x]) < self.memories@.len(),
                texts(out@) == seq![title@] + kernel_rows(ms.take(i as int), full, log_view(log@)),
                total == kernel_total(ms.take(i as int), full, from as int),
            decreases at@.len() - i,
        {
            let m = &self.memories[at[i]];
            assert(ms.take(i as int + 1).drop_last() =~= ms.take(i as int));
            assert(ms.take(i as int + 1).last() == m@);
            let block = self.kernel_row(m, full, log);
            let ghost b = texts(block@);
            let ghost rows = kernel_rows(ms.take(i as int), full, log_view(log@));
            say_all(&mut out, block);
            assert(seq![title@] + rows + b =~= seq![title@] + (rows + b));
            total = add_lengths(total, measure(m, full));
            i = i + 1;
        }
        assert(ms.take(i as int) =~= ms);
        (out, total)
    }

    /// Shows the kernel to its keeper: every memory that a session is given,
    /// with its size and how often it was given.
    pub fn kernel_show(&self, scope: &ScopeFilter, log: &Vec<ContextLogRow>) -> (r: Vec<String>)
        ensures
            texts(r@) == kernel_shown(
                kernel_of(self@.memories, "user"@, scope@),
                kernel_of(self@.memories, "feedback"@, scope@),
                log_view(log@),
            ),
    {
        let (user, rules) = self.identity_kernel(scope);
        let ghost us = taken(self@.memories, user@);
        let ghost rs = taken(self@.memories, rules@);
        assert(us.len() == user@.len() && rs.len() == rules@.len());
        let mut out: Vec<String> = Vec::new();
        if user.len() == 0 && rules.len() == 0 {
            out.push(
                "identity kernel is empty — nothing carries the 'identity' tag in scope. Promote rows with `agent memory kernel promote <id>`.".to_string(),
            );
            assert(texts(out@) =~= kernel_shown(us, rs, log_view(log@)));
            return out;
        }
        let mut head = "## Identity Kernel — ".to_string();
        head.append(usize_text(user.len()).as_str());
        head.append(" user + ");
        head.append(usize_text(rules.len()).as_str());
        head.append(" rules\n");
        let ghost h = head@;
        out.push(head);
        assert(texts(out@) =~= seq![h]);
        let (a, sum) = self.kernel_list("USER PROFILE (injects full content)", &user, true, log, 0);
        let (b, total) = self.kernel_list(
            "STANDING RULES (inject name + description)",
            &rules,
            false,
            log,
            sum,
        );
        say_all(&mut out, a);
        say_all(&mut out, b);
        let ghost before = texts(out@);
        let mut tail = "\n≈ ".to_string();
        tail.append(usize_text(total / 4).as_str());
        tail.append(
            " tokens total (chars/4). Curate: `kernel demote <id> --reason ...`, `kernel promote <id>`, `kernel supersede <old> --with <new>`.",
        );
        say(&mut out, tail);
        assert(texts(out@) =~= before + seq![tail@]);
        out
    }

    /// What a verbose identity session says of its kernel.
    pub fn kernel_verbose(&self, user: &Vec<usize>, rules: &Vec<usize>) -> (r: String)
        requires
            forall|i: int| 0 <= i < user@.len() ==> (#[trigger] user@[i]) < self.memories@.len(),
            forall|i: int| 0 <= i < rules@.len() ==> (#[trigger] rules@[i]) < self.memories@.len(),
        ensures
            r@ == "[context] tier=identity: "@ + decimal(user@.len()) + " user + "@ + decimal(
                rules@.len(),
            ) + " feedback ≈ "@ + decimal(
                (kernel_total(
                    taken(self@.memories, rules@),
                    false,
                    kernel_total(taken(self@.memories, user@), true, 0),
                ) / 4) as nat,
            ) + " tokens (chars/4)"@,
    {
        let none: Vec<ContextLogRow> = Vec::new();
        let (_, sum) = self.kernel_list("", user, true, &none, 0);
        let (_, total) = self.kernel_list("", rules, false, &none, sum);
        let mut l = "[context] tier=identity: ".to_string();
        l.append(usize_text(user.len()).as_str());
        l.append(" user + ");
        l.append(usize_text(rules.len()).as_str());
        l.append(" feedback ≈ ");
        l.append(usize_text(total / 4).as_str());
        l.append(" tokens (chars/4)");
        l
    }
}

/// The times of some log entries, by which they are ordered.
pub open spec fn log_keys(log: Seq<ContextLogV>) -> Seq<(i64, i64)> {
    log.map_values(|r: ContextLogV| (r.created_at, 0i64))
}

/// The newest log entries, at most `n`.
pub open spec fn newest(log: Seq<ContextLogV>, n: nat) -> Seq<ContextLogV> {
    Seq::new(at_most(n, log.len()), |i: int| log[ordered(log_keys(log))[i] as int])
}

/// The line of a memory that a session was given.
pub open spec fn score_line(t: JsonV) -> Seq<char> {
    "  "@ + fixed_shown(crate::json::field(t, "score"@)) + "  "@ + (match str_field(t, "name"@) {
        Some(s) => s,
        None => "?"@,
    })
}

/// The lines of a log entry.
pub open spec fn stats_block(r: ContextLogV) -> Seq<Seq<char>> {
    seq![
        "#"@ + int_text(r.id as int) + "  "@ + day(r.created_at) + "  cwd="@ + split_on(
            r.cwd,
            '/',
        ).last() + "  signals=["@ + r.signals + "]  scored="@ + int_text(r.n_scored as int),
    ] + array_items(r.returned).map_values(|t: JsonV| score_line(t)) + seq![""@]
}

/// The lines of some log entries.
pub open spec fn stats_blocks(log: Seq<ContextLogV>) -> Seq<Seq<char>>
    decreases log.len(),
{
    if log.len() == 0 {
        Seq::empty()
    } else {
        stats_blocks(log.drop_last()) + stats_block(log.last())
    }
}

/// Writes the lines of a log entry.
fn write_stats(r: &ContextLogRow) -> (v: Vec<String>)
    ensures
        texts(v@) == stats_block(r@),
{
    let pieces = split_char(r.cwd.as_str(), '/');
    assert(texts(pieces@).last() == pieces@[pieces@.len() - 1]@);
    let mut l = "#".to_string();
    l.append(i64_text(r.id).as_str());
    l.append("  ");
    l.append(fmt_ts(r.created_at).as_str());
    l.append("  cwd=");
    l.append(pieces[pieces.len() - 1].as_str());
    l.append("  signals=[");
    l.append(r.signals.as_str());
    l.append("]  scored=");
    l.append(i64_text(r.n_scored).as_str());
    let ghost first = l@;
    let mut out: Vec<String> = Vec::new();
    out.push(l);
    assert(texts(out@) =~= seq![first]);
    let ghost items = array_items(r@.returned);
    if let Some(Json::Array(es)) = Json::parse(r.returned.as_str()) {
        assert(items == trees(es@));
        let mut i: usize = 0;
        assert(texts(out@) =~= seq![first] + items.take(0).map_values(|t: JsonV| score_line(t)));
        while i < es.len()
            invariant
                i <= es@.len(),
                items == trees(es@),
                texts(out@) == seq![first] + items.take(i as int).map_values(
                    |t: JsonV| score_line(t),
                ),
            decreases es@.len() - i,
        {
            assert(items[i as int] == es@[i as int].tree());
            let mut s = "  ".to_string();
            s.append(es[i].fixed_at("score").as_str());
            s.append("  ");
            s.append(
                match es[i].str_at("name") {
                    Some(n) => n,
                    None => "?",
                },
            );
            let ghost before = texts(out@);
            say(&mut out, s);
            assert(seq![first] + items.take(i as int + 1).map_values(|t: JsonV| score_line(t))
                =~= before.push(score_line(items[i as int])));
            i = i + 1;
        }
        assert(items.take(i as int) =~= items);
    } else {
        assert(items =~= Seq::<JsonV>::empty());
        assert(texts(out@) =~= seq![first] + items.map_values(|t: JsonV| score_line(t)));
    }
    let ghost before = texts(out@);
    say(&mut out, "".to_string());
    assert(texts(out@) =~= before + seq![""@]);
    out
}

/// Shows what the last sessions were given.
pub fn context_stats(log: &Vec<ContextLogRow>, args: &ContextStatsArgs) -> (r: Vec<String>)
    ensures
        texts(r@) == stats_blocks(newest(log_view(log@), args.n as nat)),
{
    let ghost all = log_view(log@);
    let mut keys: Vec<(i64, i64)> = Vec::new();
    let mut i: usize = 0;
    while i < log.len()
        invariant
            i <= log@.len(),
            all == log_view(log@),
            keys@.len() == i,
            forall|k: int| 0 <= k < i ==> #[trigger] keys@[k] == (all[k].created_at, 0i64),
        decreases log@.len() - i,
    {
        assert(all[i as int] == log@[i as int]@);
        keys.push((log[i].created_at, 0));
        i = i + 1;
    }
    assert(keys@ =~= log_keys(all));
    let order = order_desc(&keys);
    let n: usize = if order.len() < args.n {
        order.len()
    } else {
        args.n
    };
    let ghost want = newest(all, args.n as nat);
    let mut out: Vec<String> = Vec::new();
    let mut k: usize = 0;
    assert(texts(out@) =~= stats_blocks(want.take(0)));
    while k < n
        invariant
            k <= n <= order@.len(),
            all == log_view(log@),
            is_order(keys@, order@),
            order@ == ordered(log_keys(all)),
            keys@.len() == log@.len(),
            want == newest(all, args.n as nat),
            want.len() == n,
            texts(out@) == stats_blocks(want.take(k as int)),
        decreases n - k,
    {
        assert(order@[k as int] < keys@.len());
        let r = &log[order[k]];
        assert(want[k as int] == r@);
        assert(want.take(k as int + 1).drop_last() =~= want.take(k as int));
        assert(want.take(k as int + 1).last() == r@);
        say_all(&mut out, write_stats(r));
        k = k + 1;
    }
    assert(want.take(k as int) =~= want);
    out
}

/// How many of the first `n` memories have a type that comes before another.
pub open spec fn types_before(ms: Seq<MemoryV>, t: Seq<char>, n: nat) -> nat
    decreases n,
{
    if n == 0 {
        0
    } else {
        types_before(ms, t, (n - 1) as nat) + (if text_before(ms[n - 1].type_, t) {
            1nat
        } else {
            0nat
        })
    }
}

/// By what memories are ordered for export: by type, then the newest first.
pub open spec fn export_key(ms: Seq<MemoryV>, i: int) -> (i64, i64) {
    (-(types_before(ms, ms[i].type_, ms.len()) as int) as i64, ms[i].updated_at)
}

/// The positions of the active memories among the first `n`.
pub open spec fn active_positions(ms: Seq<MemoryV>, n: nat) -> Seq<int>
    decreases n,
{
    if n == 0 {
        Seq::empty()
    } else if ms[n - 1].is_active {
        active_positions(ms, (n - 1) as nat).push(n - 1)
    } else {
        active_positions(ms, (n - 1) as nat)
    }
}

/// The keys of the memories at some positions.
pub open spec fn export_keys(ms: Seq<MemoryV>, at: Seq<int>) -> Seq<(i64, i64)> {
    at.map_values(|i: int| export_key(ms, i))
}

/// The active memories in the order of export.
pub open spec fn exported(ms: Seq<MemoryV>) -> Seq<MemoryV> {
    let at = active_positions(ms, ms.len());
    let order = ordered(export_keys(ms, at));
    Seq::new(at.len(), |i: int| ms[at[order[i] as int]])
}

/// A memory as it is exported.
pub open spec fn export_block(m: MemoryV) -> Seq<Seq<char>> {
    seq![
        "---"@,
        "id: "@ + m.id,
        "name: "@ + m.name,
        "description: "@ + m.description,
        "type: "@ + m.type_,
    ] + nonempty_line("tags: "@, m.tags) + seq!["---\n"@, m.content + "\n"@]
}

/// Memories as they are exported.
pub open spec fn export_blocks(ms: Seq<MemoryV>) -> Seq<Seq<char>>
    decreases ms.len(),
{
    if ms.len() == 0 {
        Seq::empty()
    } else {
        export_blocks(ms.drop_last()) + export_block(ms.last())
    }
}

/// Writes a memory as it is exported.
fn write_export(m: &Memory) -> (r: Vec<String>)
    ensures
        texts(r@) == export_block(m@),
{
    let mut out: Vec<String> = Vec::new();
    out.push("---".to_string());
    out.push(after("id: ", m.id.as_str()));
    out.push(after("name: ", m.name.as_str()));
    out.push(after("description: ", m.description.as_str()));
    out.push(after("type: ", m.type_.as_str()));
    assert(texts(out@) =~= seq![
        "---"@,
        "id: "@ + m@.id,
        "name: "@ + m@.name,
        "description: "@ + m@.description,
        "type: "@ + m@.type_,
    ]);
    say_nonempty(&mut out, "tags: ", m.tags.as_str());
    let ghost before = texts(out@);
    say(&mut out, "---\n".to_string());
    say(&mut out, after(m.content.as_str(), "\n"));
    assert(texts(out@) =~= before + seq!["---\n"@, m@.content + "\n"@]);
    out
}

/// No more types come before than there are memories.
proof fn lemma_types_before(ms: Seq<MemoryV>, t: Seq<char>, n: nat)
    ensures
        types_before(ms, t, n) <= n,
    decreases n,
{
    if n > 0 {
        lemma_types_before(ms, t, (n - 1) as nat);
    }
}

impl Store {
    /// Counts the memories whose type comes before another.
    fn rank_type(&self, t: &str) -> (r: usize)
        ensures
            r == types_before(self@.memories, t@, self@.memories.len()),
    {
        let ghost ms = self@.memories;
        let mut n: usize = 0;
        let mut i: usize = 0;
        while i < self.memories.len()
            invariant
                ms == self@.memories,
                i <= self.memories@.len(),
                n <= i,
                n == types_before(ms, t@, i as nat),
            decreases self.memories@.len() - i,
        {
            assert(ms[i as int] == self.memories@[i as int]@);
            if comes_before(self.memories[i].type_.as_str(), t) {
                n = n + 1;
            }
            i = i + 1;
        }
        n
    }

    /// Exports the active memories: by type, the newest first.
    pub fn export(&self) -> (r: Vec<String>)
        requires
            self.memories@.len() <= i64::MAX,
        ensures
            texts(r@) == export_blocks(exported(self@.memories)),
    {
        let ghost ms = self@.memories;
        let mut found: Vec<usize> = Vec::new();
        let mut keys: Vec<(i64, i64)> = Vec::new();
        let mut i: usize = 0;
        let ghost mut at: Seq<int> = Seq::empty();
        assert(at =~= active_positions(ms, 0));
        while i < self.memories.len()
            invariant
                ms == self@.memories,
                self.memories@.len() <= i64::MAX,
                i <= self.memories@.len(),
                at == active_positions(ms, i as nat),
                found@.len() == at.len(),
                keys@.len() == at.len(),
                forall|k: int| 0 <= k < at.len() ==> found@[k] == #[trigger] at[k],
                forall|k: int| 0 <= k < at.len() ==> 0 <= #[trigger] at[k] < i,
                forall|k: int| 0 <= k < at.len() ==> #[trigger] keys@[k] == export_key(ms, at[k]),
            decreases self.memories@.len() - i,
        {
            let m = &self.memories[i];
            assert(ms[i as int] == m@);
            if m.is_active {
                let rank = self.rank_type(m.type_.as_str());
                proof {
                    lemma_types_before(ms, m@.type_, ms.len());
                }
                found.push(i);
                keys.push((-(rank as i64), m.updated_at));
                proof {
                    at = at.push(i as int);
                }
            }
            i = i + 1;
        }
        assert(keys@ =~= export_keys(ms, at));
        let order = order_desc(&keys);
        let ghost want = exported(ms);
        let mut out: Vec<String> = Vec::new();
        let mut k: usize = 0;
        assert(texts(out@) =~= export_blocks(want.take(0)));
        while k < order.len()
            invariant
                k <= order@.len(),
                ms == self@.memories,
                is_order(keys@, order@),
                order@ == ordered(export_keys(ms, at)),
                at == active_positions(ms, ms.len()),
                keys@.len() == found@.len(),
                found@.len() == at.len(),
                order@.len() == at.len(),
                forall|x: int| 0 <= x < at.len() ==> found@[x] == #[trigger] at[x],
                forall|x: int| 0 <= x < at.len() ==> 0 <= #[trigger] at[x] < self.memories@.len(),
                want == exported(ms),
                texts(out@) == export_blocks(want.take(k as int)),
            decreases order@.len() - k,
        {
            let p = order[k];
            assert(p < keys@.len());
            assert(found@[p as int] == at[p as int]);
            let m = &self.memories[found[p]];
            assert(want[k as int] == m@);
            assert(want.take(k as int + 1).drop_last() =~= want.take(k as int));
            assert(want.take(k as int + 1).last() == m@);
            say_all(&mut out, write_export(m));
            k = k + 1;
        }
        assert(want.take(k as int) =~= want);
        out
    }
}

} // verus!
