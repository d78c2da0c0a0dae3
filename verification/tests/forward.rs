use agent_store::clap_catalog::{ArgKind, ArgNode, CommandNode};
use agent_store::classify::is_write;
use agent_store::catalog::{parse_catalog, tool_from_node};
use agent_store::clap_catalog::{catalog, command_to_json};
use agent_store::cli::{ai_catalog, ai_text};
use agent_store::forward::{
    after_failure, body_source, host_port, inline_memory_body, map_invocation, put, target,
    AfterFailure, BodySource, MapError,
};
use agent_store::invoke::build_argv;
use agent_store::json::{Json, JsonObject};
use agent_store::settings::Settings;

fn sv(xs: &[&str]) -> Vec<String> {
    xs.iter().map(|s| s.to_string()).collect()
}

fn bare() -> Settings {
    Settings { env: Vec::new(), config: None }
}

fn arg(id: &str, long: Option<&str>, action: ArgKind) -> ArgNode {
    ArgNode {
        id: id.to_string(),
        long: long.map(|s| s.to_string()),
        short: None,
        positional: long.is_none(),
        required: false,
        action,
        value_names: Vec::new(),
        help: None,
        possible_values: Vec::new(),
        defaults: Vec::new(),
    }
}

fn leaf(name: &str, args: Vec<ArgNode>) -> CommandNode {
    CommandNode {
        name: name.to_string(),
        about: None,
        aliases: Vec::new(),
        args,
        subcommands: Vec::new(),
    }
}

fn group(name: &str, subcommands: Vec<CommandNode>) -> CommandNode {
    CommandNode {
        name: name.to_string(),
        about: None,
        aliases: Vec::new(),
        args: Vec::new(),
        subcommands,
    }
}

fn value(id: &str, long: &str) -> ArgNode {
    arg(id, Some(long), ArgKind::Value)
}

fn agent() -> CommandNode {
    let mut memory = vec![
        leaf(
            "recall",
            vec![
                arg("query", None, ArgKind::Value),
                value("k", "k"),
                arg("json", Some("json"), ArgKind::SetTrue),
            ],
        ),
        leaf(
            "add",
            vec![
                value("type", "type"),
                value("name", "name"),
                value("description", "description"),
                value("content", "content"),
                value("content_file", "content-file"),
                arg("no_adjudicate", Some("no-adjudicate"), ArgKind::SetTrue),
            ],
        ),
        leaf(
            "update",
            vec![
                arg("id", None, ArgKind::Value),
                value("content", "content"),
                value("content_file", "content-file"),
            ],
        ),
    ];
    for name in [
        "show", "archive", "trash", "restore", "events", "patch-log", "diff", "apply-plan",
        "search", "recent", "list", "context", "context-stats", "rebuild-index", "recall-stats",
        "reindex", "correct", "retract", "resolve", "conflicts", "sweep", "verify", "export",
        "migrate",
    ] {
        memory.push(leaf(name, Vec::new()));
    }
    memory.push(group(
        "kernel",
        ["show", "demote", "promote", "supersede"].iter().map(|n| leaf(n, Vec::new())).collect(),
    ));
    let task = ["create", "update", "list", "show", "resume"];
    let metrics = ["record-completion", "record-usage", "report", "list"];
    group(
        "agent",
        vec![
            group("memory", memory),
            group("task", task.iter().map(|n| leaf(n, Vec::new())).collect()),
            group("metrics", metrics.iter().map(|n| leaf(n, Vec::new())).collect()),
            leaf("db-path", Vec::new()),
        ],
    )
}

fn mapped(xs: &[&str]) -> (String, JsonObject) {
    match map_invocation(&agent(), &sv(xs)) {
        Ok(r) => r,
        Err(e) => panic!("{}", e.message("")),
    }
}

fn text(args: &JsonObject, key: &str) -> String {
    args.get(key).unwrap().as_str().unwrap().to_string()
}

#[test]
fn maps_positional_and_value_flag() {
    let (tool, args) = mapped(&["memory", "recall", "how do we X", "--k", "6"]);
    assert_eq!(tool, "memory_recall");
    assert_eq!(text(&args, "query"), "how do we X");
    assert_eq!(text(&args, "k"), "6");
}

#[test]
fn maps_bare_flag() {
    let (tool, args) = mapped(&[
        "memory",
        "add",
        "--type",
        "feedback",
        "--name",
        "n",
        "--description",
        "d",
        "--content",
        "c",
        "--no-adjudicate",
    ]);
    assert_eq!(tool, "memory_add");
    assert_eq!(text(&args, "type"), "feedback");
    assert!(matches!(args.get("no_adjudicate"), Some(Json::Bool(true))));
}

#[test]
fn put_accumulates_multiple_else_overwrites() {
    let mut multi = JsonObject::new();
    put(&mut multi, "tags", true, Json::string("a"));
    put(&mut multi, "tags", true, Json::string("b"));
    assert_eq!(multi.get("tags").unwrap().text(), r#"["a","b"]"#);

    let mut single = JsonObject::new();
    put(&mut single, "k", false, Json::string("1"));
    put(&mut single, "k", false, Json::string("2"));
    assert_eq!(single.get("k").unwrap().text(), r#""2""#);
}

#[test]
fn target_extracts_url_and_strips_flag() {
    let (url, rest) =
        target(&sv(&["--via-mcp", "http://x/mcp", "memory", "list"]), &bare()).unwrap();
    assert_eq!(url, "http://x/mcp");
    assert_eq!(rest, sv(&["memory", "list"]));
    let (url2, rest2) = target(&sv(&["--via-mcp=http://y/mcp", "task", "list"]), &bare()).unwrap();
    assert_eq!(url2, "http://y/mcp");
    assert_eq!(rest2, sv(&["task", "list"]));
}

fn collect_leaves(cmd: &CommandNode, prefix: &mut Vec<String>, out: &mut Vec<Vec<String>>) {
    if cmd.subcommands.is_empty() {
        if !prefix.is_empty() {
            out.push(prefix.clone());
        }
        return;
    }
    for sub in &cmd.subcommands {
        prefix.push(sub.name.clone());
        collect_leaves(sub, prefix, out);
        prefix.pop();
    }
}

#[test]
fn every_db_leaf_forwards_to_a_tool() {
    let root = agent();
    let mut leaves: Vec<Vec<String>> = Vec::new();
    collect_leaves(&root, &mut Vec::new(), &mut leaves);
    let db_leaves: Vec<&Vec<String>> = leaves
        .iter()
        .filter(|p| matches!(p.first().map(|s| s.as_str()), Some("memory" | "task" | "metrics")))
        .collect();
    assert!(!db_leaves.is_empty(), "no DB-backed leaves found");
    for path in db_leaves {
        let (tool, _) = match map_invocation(&root, path) {
            Ok(r) => r,
            Err(e) => panic!("leaf {path:?} did not map: {}", e.message("")),
        };
        assert!(!tool.is_empty(), "leaf {path:?} produced an empty tool name");
        let _ = is_write(&tool);
    }
}

#[test]
fn dialogue_and_dbpath_are_not_forwarded() {
    assert!(target(&sv(&["--via-mcp", "http://x/mcp", "dialogue", "peers"]), &bare()).is_none());
    assert!(target(&sv(&["db-path"]), &bare()).is_none());
    assert!(target(&sv(&["--via-mcp", "http://x/mcp", "memory", "list"]), &bare()).is_some());
}

#[test]
fn host_port_resolves() {
    assert_eq!(
        host_port("http://127.0.0.1:7700/mcp"),
        Some(("127.0.0.1".to_string(), 7700))
    );
    assert_eq!(host_port("https://127.0.0.1/mcp"), Some(("127.0.0.1".to_string(), 443)));
    assert!(host_port("not-a-url").is_none());
}

fn inlined(xs: &[&str], body: &str) -> Result<JsonObject, String> {
    let (tool, args) = mapped(xs);
    inline_memory_body(&tool, &args, body)
}

#[test]
fn content_file_is_read_client_side_and_inlined() {
    let call = [
        "memory",
        "add",
        "--type",
        "project",
        "--name",
        "n",
        "--description",
        "d",
        "--content-file",
        "/tmp/body.md",
    ];
    let (tool, args) = mapped(&call);
    match body_source(&tool, &args) {
        BodySource::File(p) => assert_eq!(p, "/tmp/body.md"),
        other => panic!("{other:?}"),
    }
    let args = inlined(&call, "the real body\n").unwrap();
    assert_eq!(text(&args, "content"), "the real body\n");
    assert!(!args.has("content_file"), "content_file must never cross the wire");
}

#[test]
fn content_dash_reads_client_stdin() {
    let (tool, args) = mapped(&["memory", "update", "m-1", "--content", "-"]);
    assert!(matches!(body_source(&tool, &args), BodySource::Stdin));
    let args = inline_memory_body(&tool, &args, "piped body").unwrap();
    assert_eq!(text(&args, "content"), "piped body");
}

#[test]
fn missing_or_blank_client_bodies_fail_loud() {
    assert!(inlined(&["memory", "update", "m-1", "--content-file", "blank.md"], "  \n\t\n").is_err());
    assert!(inlined(&["memory", "add", "--content", "-"], "").is_err());
}

#[test]
fn inline_content_and_other_tools_pass_through_untouched() {
    let (tool, args) = mapped(&["memory", "update", "m-1", "--content", "real"]);
    assert!(matches!(body_source(&tool, &args), BodySource::AsGiven));
    let same = inline_memory_body(&tool, &args, "").unwrap();
    assert_eq!(text(&same, "content"), "real");
    let (tool, args) = mapped(&["memory", "recall", "-", "--k", "2"]);
    let before = args.copy().done().text();
    let same = inline_memory_body(&tool, &args, "").unwrap();
    assert_eq!(same.done().text(), before);
}

#[test]
fn unmapped_calls_say_why() {
    let root = agent();
    assert!(matches!(
        map_invocation(&root, &sv(&["memory", "recall", "q", "--bogus", "1"])),
        Err(MapError::UnknownFlag(_, _))
    ));
    assert!(matches!(
        map_invocation(&root, &sv(&["memory", "recall", "q", "--k"])),
        Err(MapError::MissingValue(_))
    ));
    assert!(matches!(
        map_invocation(&root, &sv(&["memory", "recall", "q", "again"])),
        Err(MapError::UnexpectedPositional(_))
    ));
    assert!(matches!(map_invocation(&root, &sv(&["nope"])), Err(MapError::NoSubcommand)));
}

#[test]
fn a_failed_write_is_never_repeated_locally() {
    assert!(matches!(
        after_failure("http://x/mcp", "memory_add", true),
        AfterFailure::Propagate
    ));
    assert!(matches!(
        after_failure("http://x/mcp", "memory_add", false),
        AfterFailure::Refuse(_)
    ));
    assert!(matches!(
        after_failure("http://x/mcp", "memory_list", false),
        AfterFailure::FallBackLocal
    ));
}

#[test]
fn arguments_survive_the_round_trip() {
    let root = agent();
    let line = sv(&["memory", "recall", "how do we X", "--k", "6"]);
    let (_, args) = map_invocation(&root, &line).unwrap_or_else(|_| panic!("did not map"));
    let node = command_to_json(&root.subcommands[0].subcommands[0], "agent memory recall");
    let spec = tool_from_node(&node).unwrap();
    let argv = build_argv(&spec, &args).unwrap();
    let (tool, again) = map_invocation(&root, &argv).unwrap_or_else(|_| panic!("did not map"));
    assert_eq!(tool, "memory_recall");
    assert_eq!(text(&again, "query"), "how do we X");
    assert_eq!(text(&again, "k"), "6");
}

#[test]
fn help_on_a_command_carries_its_catalog() {
    let root = agent();
    let whole = ai_catalog(&root, &sv(&["--help-ai", "--json"]));
    assert_eq!(whole.str_at("command"), Some("agent"));
    assert_eq!(whole.str_at("help_ai"), Some(ai_text("", "")));
    let names = |j: &Json| -> Vec<String> {
        parse_catalog(j).unwrap().into_iter().map(|t| t.name).collect()
    };
    assert_eq!(names(&whole), names(&catalog(&root)));
    assert!(names(&whole).contains(&"memory_recall".to_string()));
    let recall = ai_catalog(&root, &sv(&["memory", "recall", "--help-ai", "--json"]));
    assert_eq!(recall.str_at("path"), Some("agent memory recall"));
    assert_eq!(recall.str_at("command"), Some("agent memory recall"));
    assert_eq!(names(&recall), vec!["memory_recall".to_string()]);
}
