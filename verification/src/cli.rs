//! Help for agents that drive the command line, and where the store lies.
use crate::catalog::{catalog_tools, own_tool, tools_of};
use crate::clap_catalog::{catalog_scoped, command_json, descended, CommandNode};
use crate::json::{field, json_pretty, Json, JsonObject, JsonV};
use crate::settings::Settings;
use crate::text::{
    has_prefix, join, joined, lemma_texts_push, same, split_white, starts, texts, words,
};
use vstd::prelude::*;

verus! {

/// What the long help of the program ends with.
pub const ROOT_AFTER_LONG_HELP: &'static str = "AGENT-ORIENTED HELP:\n  agent --help-ai                  # terse structured overview (for agents)\n  agent --help-ai --json           # same, as JSON\n  agent memory recall --help-ai    # per-command detail (output, flags, when-to-use)\n\nCOMMON:\n  agent memory context --cwd \"$PWD\"                 # session-start memory load\n  agent memory add --type feedback --name x --description y --content-file /tmp/body\n  agent memory recall \"how do we X\" --k 6 --full";

/// Help on root.
pub const ROOT_AI: &'static str = "# agent — memory / tasks / metrics store (agent-oriented help)\n\nPURPOSE\n  Local SQLite store (~/.local/share/agent.sqlite) for cross-session agent\n  memory, a task state machine, and run metrics. Shared across all\n  accounts and pi sub-agents.\n\nGROUPS\n  memory   add/update/search/recall/recent/list/context/context-stats/\n           rebuild-index/reindex/export/migrate\n  task     create/update/list/show/resume\n  metrics  record-completion/record-usage/report/list\n  db-path  print path to agent.sqlite\n\nDETAIL\n  agent memory --help-ai           # group overview\n  agent memory recall --help-ai    # per-command detail\n  add --json to any of the above for JSON.";

/// Help on mem overview.
pub const MEM_OVERVIEW_AI: &'static str = "# agent memory — cross-session memory store (agent-oriented help)\n\nWHEN TO USE WHICH\n  context  : session start — auto-loads relevant memories (hook use).\n  recall   : prose / behavioral (\"how do we X\") — embedding similarity.\n  search   : exact keyword / symbol — FTS5 lexical.\n  add      : save a new memory (types: user|feedback|project|reference).\n  update   : edit fields of an existing memory by id.\n  recent / list : browse by recency / by type|tag|cwd.\n\nWRITING CONTENT (add/update)\n  --content <text> | --content - (stdin) | --content-file <path>.\n  Prefer --content-file for large/free-text bodies: no shell-quoting, and the\n  body never lands on the command line (avoids command guards). Precedence:\n  --content-file > --content - > --content.\n\nDETAIL: agent memory <cmd> --help-ai [--json]";

/// Help on mem add.
pub const MEM_ADD_AI: &'static str = "# agent memory add — save a new memory\n\nUSAGE\n  agent memory add --type <user|feedback|project|reference> --name <slug> --description <hook> --content-file <path> [--tags t1,t2] [--cwd PATH] [--source curated]\n\nCONTENT INPUT (one required; precedence)\n  --content-file <path>  >  --content -  (stdin)  >  --content <inline>\n  Use --content-file or stdin for anything with quotes, newlines, $, backticks,\n  or strings a command guard might flag (e.g. rm -rf, find -delete).\n\nOUTPUT\n  The new memory id (8 hex chars) on stdout.\n\nNOTES\n  Embeds the memory for semantic recall (OPENROUTER_API_KEY, config.toml\n  fallback). type must be one of the four; tags are comma-separated.";

/// Help on mem update.
pub const MEM_UPDATE_AI: &'static str = "# agent memory update — edit an existing memory\n\nUSAGE\n  agent memory update <id> [--name ..] [--description ..] [--content <text>|--content -|--content-file <path>] [--tags ..] [--active true|false]\n\nNOTES\n  Only the fields you pass change. Content input precedence matches add\n  (--content-file > stdin > inline). Re-embeds from the post-update state.\n  --active false soft-hides a memory (kept, excluded from recall/context).\n  Errors if no memory matches <id>.";

/// Help on mem search.
pub const MEM_SEARCH_AI: &'static str = "# agent memory search — FTS5 lexical search\n\nUSAGE\n  agent memory search \"<query>\" [--type T] [--limit N=10]\n\nWHEN\n  Exact keywords / symbols. For prose or behavioral queries use `recall`.\n\nOUTPUT\n  Matching memories (id, type, name, description), ranked by FTS5 BM25.";

/// Help on mem recall.
pub const MEM_RECALL_AI: &'static str = "# agent memory recall — semantic recall via embeddings\n\nUSAGE\n  agent memory recall \"<query>\" [--k N=5] [--type T] [--compare] [--full] [--json]\n\nWHEN\n  Prose / behavioral (\"how do we X\", \"what did we decide about Y\"). Embedding\n  cosine similarity. Needs OPENROUTER_API_KEY (config.toml fallback).\n\nFLAGS\n  --k N       number of results          --full     include full content body\n  --type T    restrict to a type         --compare  also show FTS side-by-side\n  --json      machine-readable output\n\nOUTPUT\n  Ranked rows: [score] [id] (type) name — description; full body when --full.";

/// Help on mem recent.
pub const MEM_RECENT_AI: &'static str = "# agent memory recent — most recently updated memories\n\nUSAGE\n  agent memory recent [--n N=10] [--type T]\n\nOUTPUT\n  Recent memories (id, type, name, description), newest first.";

/// Help on mem list.
pub const MEM_LIST_AI: &'static str = "# agent memory list — list memories by filter\n\nUSAGE\n  agent memory list [--type T] [--tag TAG] [--cwd PATH] [--limit N]\n\nWHEN\n  Browse / enumerate by category. For relevance ranking use recall or search.";

/// Help on mem context.
pub const MEM_CONTEXT_AI: &'static str = "# agent memory context — session-start memory load (hook use)\n\nUSAGE\n  agent memory context [--cwd \"$PWD\"]\n\nPURPOSE\n  Emits the relevant-memory block injected at session start (the SessionStart\n  hook calls this). Scores by cwd + type + recency. Run manually to re-load\n  context after a compaction.";

/// Help on mem context stats.
pub const MEM_CONTEXT_STATS_AI: &'static str = "# agent memory context-stats — context-call log (tuning)\n\nUSAGE\n  agent memory context-stats [--n N]\n\nPURPOSE\n  Recent `context` invocations and what they surfaced — for tuning retrieval.";

/// Help on mem rebuild.
pub const MEM_REBUILD_AI: &'static str = "# agent memory rebuild-index — rebuild the topic index\n\nUSAGE\n  agent memory rebuild-index\n\nPURPOSE\n  Rebuilds the FTS/topic index for all active memories. Maintenance op; run\n  after bulk imports or if search results look stale.";

/// Help on mem reindex.
pub const MEM_REINDEX_AI: &'static str = "# agent memory reindex — (re-)embed memories\n\nUSAGE\n  agent memory reindex [--missing] [--batch N=16]\n\nPURPOSE\n  Computes embeddings. --missing embeds only memories lacking an embedding for\n  the active model (use after a model/dims change). Needs the embedder\n  configured (OPENROUTER_API_KEY).";

/// Help on mem export.
pub const MEM_EXPORT_AI: &'static str = "# agent memory export — dump active memories as markdown\n\nUSAGE\n  agent memory export\n\nOUTPUT\n  All active memories rendered as markdown on stdout (backup / review).";

/// Help on mem migrate.
pub const MEM_MIGRATE_AI: &'static str = "# agent memory migrate — import markdown memory files\n\nUSAGE\n  agent memory migrate --dir <path> [--dry-run]\n\nPURPOSE\n  One-time import of legacy markdown memory files into the DB. --dry-run prints\n  what would be imported without writing.";

/// Help on task overview.
pub const TASK_OVERVIEW_AI: &'static str = "# agent task — task state machine (agent-oriented help)\n\nACTIONS\n  create  start a task (objective, type, cwd, optional parent)\n  update  set status/result/completion-id on a task by id\n  list    recent tasks (filter by status/cwd/days)\n  show    full details of one task\n  resume  list in_progress + suspended tasks to pick up\n\nDETAIL: agent task <cmd> --help-ai [--json]";

/// Help on task create.
pub const TASK_CREATE_AI: &'static str = "# agent task create — start a task\n\nUSAGE\n  agent task create --objective \"<what>\" [--task-type research] [--cwd PATH] [--parent-id ID]\n\nOUTPUT\n  The new task id on stdout.";

/// Help on task update.
pub const TASK_UPDATE_AI: &'static str = "# agent task update — update a task\n\nUSAGE\n  agent task update <id> [--status S] [--result \"<text>\"] [--completion-id ID]\n\nNOTES\n  status is free-form (e.g. in_progress, completed, suspended). Only the fields\n  you pass change.";

/// Help on task list.
pub const TASK_LIST_AI: &'static str = "# agent task list — list tasks\n\nUSAGE\n  agent task list [--status S] [--cwd PATH] [--limit N=20] [--days N=7]";

/// Help on task show.
pub const TASK_SHOW_AI: &'static str = "# agent task show — full task details\n\nUSAGE\n  agent task show <id>";

/// Help on task resume.
pub const TASK_RESUME_AI: &'static str = "# agent task resume — resumable tasks\n\nUSAGE\n  agent task resume\n\nPURPOSE\n  Lists in_progress and suspended tasks so a session can pick up unfinished work.";

/// Help on metrics overview.
pub const METRICS_OVERVIEW_AI: &'static str = "# agent metrics — run metrics (agent-oriented help)\n\nACTIONS\n  record-completion  one row per orchestrate run / pi session\n  record-usage       token/cost usage tied to a completion\n  report             aggregated metrics\n  list               recent completions\n\nDETAIL: agent metrics <cmd> --help-ai [--json]";

/// Help on metrics record completion.
pub const METRICS_RECORD_COMPLETION_AI: &'static str = "# agent metrics record-completion — record a completion\n\nUSAGE\n  agent metrics record-completion [--task-id ID] [--session-id ID] [--model M] [--provider P] [--task-type T] [--objective ..] [--cwd PATH]\n\nOUTPUT\n  The completion id on stdout (pass to record-usage).";

/// Help on metrics record usage.
pub const METRICS_RECORD_USAGE_AI: &'static str = "# agent metrics record-usage — record token/cost usage\n\nUSAGE\n  agent metrics record-usage --completion-id <ID> [token/cost flags]\n\nPURPOSE\n  Attaches token and cost usage to a completion row created by\n  record-completion. See `agent metrics record-usage --help` for exact flags.";

/// Help on metrics report.
pub const METRICS_REPORT_AI: &'static str = "# agent metrics report — aggregated metrics\n\nUSAGE\n  agent metrics report [filters]\n\nOUTPUT\n  Aggregated completion/usage stats (by model/provider/type as available).\n  See `agent metrics report --help` for filters.";

/// Help on metrics list.
pub const METRICS_LIST_AI: &'static str = "# agent metrics list — recent completions\n\nUSAGE\n  agent metrics list [--limit N]";

/// Help on dbpath.
pub const DBPATH_AI: &'static str = "# agent db-path — print the store path\n\nUSAGE\n  agent db-path\n\nOUTPUT\n  Absolute path to agent.sqlite.";

/// The help text for a command.
pub open spec fn help_for(group: Seq<char>, sub: Seq<char>) -> Seq<char> {
    if group == "memory"@ {
        if sub == "add"@ {
            MEM_ADD_AI@
        } else if sub == "update"@ {
            MEM_UPDATE_AI@
        } else if sub == "search"@ {
            MEM_SEARCH_AI@
        } else if sub == "recall"@ {
            MEM_RECALL_AI@
        } else if sub == "recent"@ {
            MEM_RECENT_AI@
        } else if sub == "list"@ {
            MEM_LIST_AI@
        } else if sub == "context"@ {
            MEM_CONTEXT_AI@
        } else if sub == "context-stats"@ {
            MEM_CONTEXT_STATS_AI@
        } else if sub == "rebuild-index"@ {
            MEM_REBUILD_AI@
        } else if sub == "reindex"@ {
            MEM_REINDEX_AI@
        } else if sub == "export"@ {
            MEM_EXPORT_AI@
        } else if sub == "migrate"@ {
            MEM_MIGRATE_AI@
        } else {
            MEM_OVERVIEW_AI@
        }
    } else if group == "task"@ {
        if sub == "create"@ {
            TASK_CREATE_AI@
        } else if sub == "update"@ {
            TASK_UPDATE_AI@
        } else if sub == "list"@ {
            TASK_LIST_AI@
        } else if sub == "show"@ {
            TASK_SHOW_AI@
        } else if sub == "resume"@ {
            TASK_RESUME_AI@
        } else {
            TASK_OVERVIEW_AI@
        }
    } else if group == "metrics"@ {
        if sub == "record-completion"@ {
            METRICS_RECORD_COMPLETION_AI@
        } else if sub == "record-usage"@ {
            METRICS_RECORD_USAGE_AI@
        } else if sub == "report"@ {
            METRICS_REPORT_AI@
        } else if sub == "list"@ {
            METRICS_LIST_AI@
        } else {
            METRICS_OVERVIEW_AI@
        }
    } else if group == "db-path"@ {
        DBPATH_AI@
    } else {
        ROOT_AI@
    }
}

/// The help text for a command.
pub fn ai_text(group: &str, sub: &str) -> (r: &'static str)
    ensures
        r@ == help_for(group@, sub@),
{
    if same(group, "memory") {
        if same(sub, "add") {
            MEM_ADD_AI
        } else if same(sub, "update") {
            MEM_UPDATE_AI
        } else if same(sub, "search") {
            MEM_SEARCH_AI
        } else if same(sub, "recall") {
            MEM_RECALL_AI
        } else if same(sub, "recent") {
            MEM_RECENT_AI
        } else if same(sub, "list") {
            MEM_LIST_AI
        } else if same(sub, "context") {
            MEM_CONTEXT_AI
        } else if same(sub, "context-stats") {
            MEM_CONTEXT_STATS_AI
        } else if same(sub, "rebuild-index") {
            MEM_REBUILD_AI
        } else if same(sub, "reindex") {
            MEM_REINDEX_AI
        } else if same(sub, "export") {
            MEM_EXPORT_AI
        } else if same(sub, "migrate") {
            MEM_MIGRATE_AI
        } else {
            MEM_OVERVIEW_AI
        }
    } else if same(group, "task") {
        if same(sub, "create") {
            TASK_CREATE_AI
        } else if same(sub, "update") {
            TASK_UPDATE_AI
        } else if same(sub, "list") {
            TASK_LIST_AI
        } else if same(sub, "show") {
            TASK_SHOW_AI
        } else if same(sub, "resume") {
            TASK_RESUME_AI
        } else {
            TASK_OVERVIEW_AI
        }
    } else if same(group, "metrics") {
        if same(sub, "record-completion") {
            METRICS_RECORD_COMPLETION_AI
        } else if same(sub, "record-usage") {
            METRICS_RECORD_USAGE_AI
        } else if same(sub, "report") {
            METRICS_REPORT_AI
        } else if same(sub, "list") {
            METRICS_LIST_AI
        } else {
            METRICS_OVERVIEW_AI
        }
    } else if same(group, "db-path") {
        DBPATH_AI
    } else {
        ROOT_AI
    }
}

/// The arguments that are no flags, in order.
pub open spec fn plain_args(argv: Seq<Seq<char>>) -> Seq<Seq<char>>
    decreases argv.len(),
{
    if argv.len() == 0 {
        Seq::empty()
    } else if starts(argv.last(), "-"@) {
        plain_args(argv.drop_last())
    } else {
        plain_args(argv.drop_last()).push(argv.last())
    }
}

/// The text at a place, or an empty one.
pub open spec fn place_or_empty(v: Seq<Seq<char>>, i: int) -> Seq<char> {
    if i < v.len() {
        v[i]
    } else {
        ""@
    }
}

/// The command that a command line names, in at most two words behind the
/// program's.
pub open spec fn command_named(argv: Seq<Seq<char>>) -> Seq<char> {
    let plain = plain_args(argv);
    joined(
        words("agent "@ + place_or_empty(plain, 0) + " "@ + place_or_empty(plain, 1)),
        " "@,
    )
}

/// The help on the command that a command line names.
pub open spec fn help_named(argv: Seq<Seq<char>>) -> Seq<char> {
    let plain = plain_args(argv);
    help_for(place_or_empty(plain, 0), place_or_empty(plain, 1))
}

/// The help that is printed for a command line: the text, or JSON with the
/// command.
pub open spec fn help_printed(argv: Seq<Seq<char>>, json: bool) -> Seq<char> {
    if json {
        json_pretty(
            JsonV::Object(
                Map::empty().insert("command"@, JsonV::Str(command_named(argv))).insert(
                    "help_ai"@,
                    JsonV::Str(help_named(argv)),
                ),
            ),
        )
    } else {
        help_named(argv)
    }
}

/// An entry of the catalog with the help on its command.
pub open spec fn with_help(entry: JsonV, argv: Seq<Seq<char>>) -> JsonV {
    match entry {
        JsonV::Object(m) => JsonV::Object(
            m.insert("command"@, JsonV::Str(command_named(argv))).insert(
                "help_ai"@,
                JsonV::Str(help_named(argv)),
            ),
        ),
        other => other,
    }
}

/// The entry of the catalog that a command line reaches.
pub open spec fn entry_reached(root: CommandNode, argv: Seq<Seq<char>>) -> JsonV {
    let (end, names) = descended(root, plain_args(argv));
    command_json(end, joined(seq![root.name@] + names, " "@))
}

/// The arguments that are no flags.
fn take_plain(argv: &Vec<String>) -> (r: Vec<String>)
    ensures
        texts(r@) == plain_args(texts(argv@)),
{
    let ghost all = texts(argv@);
    let mut plain: Vec<String> = Vec::new();
    let mut i: usize = 0;
    assert(texts(plain@) =~= plain_args(all.take(0)));
    while i < argv.len()
        invariant
            all == texts(argv@),
            i <= argv@.len(),
            texts(plain@) == plain_args(all.take(i as int)),
        decreases argv@.len() - i,
    {
        assert(all.take(i as int + 1).drop_last() =~= all.take(i as int));
        assert(all.take(i as int + 1).last() == argv@[i as int]@);
        if !has_prefix(argv[i].as_str(), "-") {
            let a = argv[i].clone();
            proof {
                lemma_texts_push(plain@, a);
            }
            plain.push(a);
        }
        i = i + 1;
    }
    assert(all.take(i as int) =~= all);
    plain
}

/// The argument at a place, or an empty one.
fn place(plain: &Vec<String>, i: usize) -> (r: String)
    ensures
        r@ == place_or_empty(texts(plain@), i as int),
{
    let ghost ps = texts(plain@);
    assert(ps.len() == plain@.len());
    if i < plain.len() {
        assert(ps[i as int] == plain@[i as int]@);
        plain[i].clone()
    } else {
        "".to_string()
    }
}

/// Names the command of a command line.
fn name_command(plain: &Vec<String>) -> (r: String)
    ensures
        r@ == joined(
            words(
                "agent "@ + place_or_empty(texts(plain@), 0) + " "@ + place_or_empty(
                    texts(plain@),
                    1,
                ),
            ),
            " "@,
        ),
{
    let mut command = "agent ".to_string();
    command.append(place(plain, 0).as_str());
    command.append(" ");
    command.append(place(plain, 1).as_str());
    join(&split_white(command.as_str()), " ")
}

/// The help that is printed for a command line.
pub fn ai_help(argv: &Vec<String>, json: bool) -> (r: String)
    ensures
        r@ == help_printed(texts(argv@), json),
{
    let plain = take_plain(argv);
    let text = ai_text(place(&plain, 0).as_str(), place(&plain, 1).as_str());
    if json {
        let mut o = JsonObject::new();
        o.insert_str("command", name_command(&plain).as_str());
        o.insert_str("help_ai", text);
        o.done().pretty()
    } else {
        text.to_owned()
    }
}

/// The entry of the catalog that a command line reaches, with the help on its
/// command.
pub fn ai_catalog(root: &CommandNode, argv: &Vec<String>) -> (r: Json)
    ensures
        r.tree() == with_help(entry_reached(*root, texts(argv@)), texts(argv@)),
{
    let plain = take_plain(argv);
    let entry = catalog_scoped(root, &plain);
    match entry {
        Json::Object(es) => {
            let mut o = JsonObject { es };
            o.insert_str("command", name_command(&plain).as_str());
            o.insert_str("help_ai", ai_text(place(&plain, 0).as_str(), place(&plain, 1).as_str()));
            o.done()
        },
        other => other,
    }
}

/// The help on a command hides nothing of the catalog: the same tools are read
/// from an entry with it as from the entry alone.
pub proof fn law_help_keeps_the_tools(entry: JsonV, argv: Seq<Seq<char>>)
    ensures
        tools_of(with_help(entry, argv)) == tools_of(entry),
        catalog_tools(with_help(entry, argv)) == catalog_tools(entry),
{
    reveal_strlit("command");
    reveal_strlit("help_ai");
    reveal_strlit("path");
    reveal_strlit("about");
    reveal_strlit("args");
    reveal_strlit("invokable");
    reveal_strlit("subcommands");
    assert("command"@.len() == 7 && "help_ai"@.len() == 7);
    assert("path"@.len() == 4 && "about"@.len() == 5 && "args"@.len() == 4);
    assert("invokable"@.len() == 9 && "subcommands"@.len() == 11);
    let e = with_help(entry, argv);
    assert(field(e, "path"@) == field(entry, "path"@));
    assert(field(e, "about"@) == field(entry, "about"@));
    assert(field(e, "args"@) == field(entry, "args"@));
    assert(field(e, "invokable"@) == field(entry, "invokable"@));
    assert(field(e, "subcommands"@) == field(entry, "subcommands"@));
    if let JsonV::Object(m) = entry {
        let n = e->Object_0;
        if n.dom().finite() {
            assert(m.dom().subset_of(n.dom()));
            vstd::set_lib::lemma_len_subset(m.dom(), n.dom());
        }
        assert(own_tool(e) == own_tool(entry));
    }
}

/// Where the store lies: where the environment says, else below the home
/// directory, else below the current one.
pub fn db_path(s: &Settings) -> (r: String)
    ensures
        r@ == (match s@.var("AGENT_DB"@) {
            Some(p) => p,
            None => match s@.var("HOME"@) {
                Some(h) => h + "/.local/share/agent.sqlite"@,
                None => "./.local/share/agent.sqlite"@,
            },
        }),
{
    match s.var("AGENT_DB") {
        Some(p) => p,
        None => match s.var("HOME") {
            Some(h) => {
                let mut p = h;
                p.append("/.local/share/agent.sqlite");
                p
            },
            None => "./.local/share/agent.sqlite".to_string(),
        },
    }
}

/// The steps of the schema that a store of some version still lacks, in order.
pub fn pending_steps(version: i64, last: i64) -> (r: Vec<i64>)
    requires
        last < i64::MAX,
    ensures
        forall|k: i64| #[trigger] r@.contains(k) <==> 1 <= k <= last && version < k,
        forall|i: int, j: int| 0 <= i < j < r@.len() ==> r@[i] < r@[j],
{
    let mut out: Vec<i64> = Vec::new();
    let mut k: i64 = 1;
    while k <= last
        invariant
            1 <= k,
            k <= last + 1 || k == 1,
            last < i64::MAX,
            forall|x: i64| #[trigger] out@.contains(x) <==> 1 <= x < k && version < x,
            forall|i: int, j: int| 0 <= i < j < out@.len() ==> out@[i] < out@[j],
            forall|i: int| 0 <= i < out@.len() ==> out@[i] < k,
        decreases last + 1 - k,
    {
        let ghost before = out@;
        if version < k {
            out.push(k);
            assert forall|x: i64| #[trigger] out@.contains(x) <==> 1 <= x < k + 1 && version
                < x by {
                if out@.contains(x) {
                    let i = choose|i: int| 0 <= i < out@.len() && out@[i] == x;
                    if i < before.len() {
                        assert(before.contains(x)) by {
                            assert(before[i] == x);
                        }
                    }
                }
                if 1 <= x < k && version < x {
                    assert(before.contains(x));
                    let i = choose|i: int| 0 <= i < before.len() && before[i] == x;
                    assert(out@[i] == x);
                }
                if x == k {
                    assert(out@[before.len() as int] == x);
                }
            }
        }
        k = k + 1;
    }
    out
}

} // verus!
