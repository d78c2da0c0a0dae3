use agent_store::catalog::{parse_catalog, validate_read_classification, ToolSpec};
use agent_store::clap_catalog::{catalog, catalog_scoped, ArgKind, ArgNode, CommandNode};
use agent_store::classify::{is_write, read_tools};
use agent_store::invoke::build_argv;
use agent_store::json::{Json, JsonObject};
use agent_store::schema::input_schema;
use agent_store::server::{
    call_answer, comma_list, parse_allowed_hosts, parse_listen, plan_call, resolve_agent_bin,
    writes_allowed, CallPlan, Registry,
};
use agent_store::settings::Settings;

fn json(text: &str) -> Json {
    Json::parse(text).unwrap()
}

fn object(text: &str) -> JsonObject {
    match json(text) {
        Json::Object(es) => JsonObject { es },
        _ => panic!("not an object"),
    }
}

fn texts(xs: &[&str]) -> Vec<String> {
    xs.iter().map(|s| s.to_string()).collect()
}

fn env(pairs: &[(&str, &str)]) -> Settings {
    Settings {
        env: pairs.iter().map(|(k, v)| (k.to_string(), v.to_string())).collect(),
        config: None,
    }
}

fn arg(id: &str, long: Option<&str>, action: ArgKind) -> ArgNode {
    ArgNode {
        id: id.to_string(),
        long: long.map(|s| s.to_string()),
        short: None,
        positional: long.is_none(),
        required: false,
        action,
        value_names: Vec::new(),
        help: None,
        possible_values: Vec::new(),
        defaults: Vec::new(),
    }
}

fn command(name: &str, about: &str, args: Vec<ArgNode>, subcommands: Vec<CommandNode>) -> CommandNode {
    CommandNode {
        name: name.to_string(),
        about: if about.is_empty() { None } else { Some(about.to_string()) },
        aliases: Vec::new(),
        args,
        subcommands,
    }
}

fn demo() -> CommandNode {
    let mut typ = arg("type", Some("type"), ArgKind::Value);
    typ.required = true;
    let add = command(
        "add",
        "Add a memory",
        vec![
            typ,
            arg("tags", Some("tags"), ArgKind::Values),
            arg("no_adjudicate", Some("no-adjudicate"), ArgKind::SetTrue),
            arg("query", None, ArgKind::Value),
        ],
        Vec::new(),
    );
    command(
        "demo",
        "",
        Vec::new(),
        vec![
            command("memory", "Memory things", Vec::new(), vec![add]),
            command("db-path", "Print the db path", Vec::new(), Vec::new()),
        ],
    )
}

fn named<'a>(items: &'a [Json], name: &str) -> &'a Json {
    items.iter().find(|i| i.str_at("name") == Some(name)).unwrap()
}

fn flag(v: &Json, key: &str) -> bool {
    match v.get(key) {
        Some(Json::Bool(b)) => *b,
        _ => panic!("no flag {key}"),
    }
}

#[test]
fn root_lists_groups_and_leaves() {
    let c = catalog(&demo());
    assert_eq!(c.str_at("name"), Some("demo"));
    assert!(!flag(&c, "invokable"));
    let subs = c.array_at("subcommands").unwrap();
    let names: Vec<&str> = subs.iter().map(|s| s.str_at("name").unwrap()).collect();
    assert!(names.contains(&"memory"));
    assert!(names.contains(&"db-path"));
    assert!(flag(named(subs, "db-path"), "invokable"));
}

#[test]
fn scoped_descends_and_args_carry_metadata() {
    let c = catalog_scoped(&demo(), &texts(&["memory", "add"]));
    assert_eq!(c.str_at("path"), Some("demo memory add"));
    assert!(flag(&c, "invokable"));
    let args = c.array_at("args").unwrap();

    let typ = named(args, "type");
    assert_eq!(typ.str_at("long"), Some("--type"));
    assert!(flag(typ, "required"));
    assert!(flag(typ, "takes_value"));

    assert!(flag(named(args, "tags"), "multiple"));

    let na = named(args, "no_adjudicate");
    assert_eq!(na.str_at("long"), Some("--no-adjudicate"));
    assert!(!flag(na, "takes_value"));

    assert!(flag(named(args, "query"), "positional"));
}

#[test]
fn summary_aliases_about() {
    let c = catalog(&demo());
    let mem = named(c.array_at("subcommands").unwrap(), "memory");
    assert_eq!(mem.str_at("summary"), Some("Memory things"));
    assert_eq!(mem.str_at("about"), Some("Memory things"));
    let add = catalog_scoped(&demo(), &texts(&["memory", "add"]));
    assert_eq!(add.str_at("summary"), Some("Add a memory"));
}

#[test]
fn unknown_segment_stops_descent() {
    let c = catalog_scoped(&demo(), &texts(&["memory", "nope"]));
    assert_eq!(c.str_at("path"), Some("demo memory"));
}

#[test]
fn empty_path_returns_root() {
    let c = catalog_scoped(&demo(), &Vec::new());
    assert_eq!(c.str_at("path"), Some("demo"));
}

const FIXTURE: &str = r#"{
    "name": "agent", "path": "agent", "invokable": false,
    "subcommands": [
        { "name": "memory", "path": "agent memory", "invokable": false, "subcommands": [
            { "name": "add", "path": "agent memory add", "about": "Add a new memory", "invokable": true, "args": [
                { "name": "type", "long": "--type", "positional": false, "required": true, "takes_value": true, "multiple": false },
                { "name": "content", "long": "--content", "positional": false, "required": false, "takes_value": true, "multiple": false },
                { "name": "content_file", "long": "--content-file", "positional": false, "required": false, "takes_value": true, "multiple": false },
                { "name": "tags", "long": "--tags", "positional": false, "required": false, "takes_value": true, "multiple": true },
                { "name": "no-adjudicate", "long": "--no-adjudicate", "positional": false, "required": false, "takes_value": false, "multiple": false, "possible_values": ["true","false"] }
            ]},
            { "name": "recall", "path": "agent memory recall", "about": "Semantic recall", "invokable": true, "args": [
                { "name": "query", "long": null, "positional": true, "required": true, "takes_value": true, "multiple": false },
                { "name": "k", "long": "--k", "positional": false, "required": false, "takes_value": true, "multiple": false, "default": ["5"] },
                { "name": "json", "long": "--json", "positional": false, "required": false, "takes_value": false, "multiple": false, "possible_values": ["true","false"] }
            ]}
        ]},
        { "name": "db-path", "path": "agent db-path", "about": "Print path", "invokable": true, "args": [] }
    ]
}"#;

fn fixture() -> Vec<ToolSpec> {
    parse_catalog(&json(FIXTURE)).unwrap()
}

fn tool<'a>(specs: &'a [ToolSpec], name: &str) -> &'a ToolSpec {
    specs.iter().find(|s| s.name == name).unwrap()
}

#[test]
fn parses_invokable_leaves() {
    let specs = fixture();
    let names: Vec<&str> = specs.iter().map(|s| s.name.as_str()).collect();
    assert!(names.contains(&"memory_add"));
    assert!(names.contains(&"memory_recall"));
    assert!(names.contains(&"db_path"));
    assert!(!names.contains(&"memory"));
}

#[test]
fn classifies_read_vs_write() {
    let specs = fixture();
    assert!(tool(&specs, "memory_add").is_write);
    assert!(!tool(&specs, "memory_recall").is_write);
    assert!(!tool(&specs, "db_path").is_write);
}

#[test]
fn argv_and_json_flag() {
    let specs = fixture();
    let recall = tool(&specs, "memory_recall");
    assert_eq!(recall.argv, vec!["memory", "recall"]);
    assert!(recall.has_json_flag);
    let add = tool(&specs, "memory_add");
    assert!(!add.has_json_flag);
    let no_adj = add.args.iter().find(|a| a.name == "no-adjudicate").unwrap();
    assert!(no_adj.is_bare_flag());
    assert!(no_adj.is_bool());
}

#[test]
fn a_catalog_without_tools_is_refused() {
    let empty = json(r#"{ "name": "agent", "path": "agent", "invokable": false }"#);
    assert!(parse_catalog(&empty).is_err());
}

const INVOKED: &str = r#"{
    "name": "agent", "path": "agent", "invokable": false, "subcommands": [
        { "name": "memory", "path": "agent memory", "invokable": false, "subcommands": [
            { "name": "add", "path": "agent memory add", "about": "Add", "invokable": true, "args": [
                { "name": "type", "long": "--type", "required": true, "takes_value": true },
                { "name": "tags", "long": "--tags", "required": false, "takes_value": true, "multiple": true },
                { "name": "no-adjudicate", "long": "--no-adjudicate", "required": false, "takes_value": false, "possible_values": ["true","false"] }
            ]},
            { "name": "recall", "path": "agent memory recall", "about": "Recall", "invokable": true, "args": [
                { "name": "query", "long": null, "positional": true, "required": true, "takes_value": true },
                { "name": "json", "long": "--json", "required": false, "takes_value": false, "possible_values": ["true","false"] }
            ]}
        ]}
    ]
}"#;

fn invoked(name: &str, args: &str) -> Result<Vec<String>, String> {
    let specs = parse_catalog(&json(INVOKED)).unwrap();
    build_argv(tool(&specs, name), &object(args))
}

#[test]
fn positional_first_and_json_appended() {
    let argv = invoked("memory_recall", r#"{ "query": "how do we X" }"#).unwrap();
    assert_eq!(argv, vec!["memory", "recall", "how do we X", "--json"]);
}

#[test]
fn long_emitted_verbatim_no_double_dash() {
    let argv = invoked("memory_add", r#"{ "type": "feedback" }"#).unwrap();
    assert_eq!(argv, vec!["memory", "add", "--type", "feedback"]);
    assert!(!argv.iter().any(|a| a.starts_with("----")));
}

#[test]
fn bare_flag_only_when_true_and_multiple_repeats() {
    let argv = invoked(
        "memory_add",
        r#"{ "type": "user", "tags": ["a", "b"], "no-adjudicate": true }"#,
    )
    .unwrap();
    assert!(argv.contains(&"--no-adjudicate".to_string()));
    assert_eq!(argv.iter().filter(|a| *a == "--tags").count(), 2);

    let argv2 = invoked("memory_add", r#"{ "type": "user", "no-adjudicate": false }"#).unwrap();
    assert!(!argv2.contains(&"--no-adjudicate".to_string()));
}

#[test]
fn a_missing_required_argument_is_refused() {
    assert!(invoked("memory_recall", "{}").is_err());
}

const SCHEMED: &str = r#"{
    "name": "agent", "path": "agent", "invokable": false, "subcommands": [
        { "name": "memory", "path": "agent memory", "invokable": false, "subcommands": [
            { "name": "add", "path": "agent memory add", "about": "Add", "invokable": true, "args": [
                { "name": "type", "long": "--type", "required": true, "takes_value": true, "possible_values": ["user","feedback"] },
                { "name": "content", "long": "--content", "required": false, "takes_value": true },
                { "name": "content_file", "long": "--content-file", "required": false, "takes_value": true },
                { "name": "tags", "long": "--tags", "required": false, "takes_value": true, "multiple": true }
            ]},
            { "name": "recall", "path": "agent memory recall", "about": "Recall", "invokable": true, "args": [
                { "name": "query", "long": null, "positional": true, "required": true, "takes_value": true },
                { "name": "k", "long": "--k", "required": false, "takes_value": true, "default": ["5"] }
            ]}
        ]},
        { "name": "memory_recall_read", "path": "agent memory recall", "invokable": false, "subcommands": [] }
    ]
}"#;

fn property(schema: &Json, name: &str) -> Json {
    schema.get("properties").unwrap().get(name).unwrap().copy()
}

#[test]
fn recall_schema_requires_query_and_defaults_k() {
    let specs = parse_catalog(&json(SCHEMED)).unwrap();
    let sch = input_schema(tool(&specs, "memory_recall"));
    assert_eq!(sch.get("required").unwrap().text(), r#"["query"]"#);
    assert_eq!(property(&sch, "query").str_at("type"), Some("string"));
    assert_eq!(property(&sch, "k").str_at("type"), Some("string"));
    assert_eq!(property(&sch, "k").str_at("default"), Some("5"));
}

#[test]
fn add_schema_enum_array_and_oneof() {
    let specs = parse_catalog(&json(SCHEMED)).unwrap();
    let sch = input_schema(tool(&specs, "memory_add"));
    assert_eq!(
        property(&sch, "type").get("enum").unwrap().text(),
        r#"["user","feedback"]"#
    );
    assert_eq!(property(&sch, "tags").str_at("type"), Some("array"));
    assert!(sch.get("oneOf").is_some(), "content/content_file -> oneOf");
}

#[test]
fn reads_and_writes_classified() {
    assert!(!is_write("memory_recall"));
    assert!(!is_write("memory_list"));
    assert!(!is_write("db_path"));
    assert!(is_write("memory_add"));
    assert!(is_write("task_create"));
    assert!(is_write("memory_brand_new_verb"));
}

#[test]
fn a_listed_read_tool_must_exist() {
    let specs = fixture();
    let err = validate_read_classification(&specs).unwrap_err();
    assert_eq!(err, "READ_TOOLS entry 'memory_show' is not a live tool (catalog drift)");
    let all: Vec<ToolSpec> = read_tools()
        .iter()
        .map(|n| ToolSpec {
            name: n.clone(),
            argv: Vec::new(),
            description: String::new(),
            args: Vec::new(),
            is_write: false,
            has_json_flag: false,
        })
        .collect();
    assert!(validate_read_classification(&all).is_ok());
}

const STUB: &str = r#"{"name":"agent","path":"agent","invokable":false,"subcommands":[
 {"name":"memory","path":"agent memory","invokable":false,"subcommands":[
  {"name":"add","path":"agent memory add","about":"add a memory","invokable":true,"args":[
   {"name":"type","long":"--type","positional":false,"required":true,"takes_value":true,"multiple":false},
   {"name":"content","long":"--content","positional":false,"required":true,"takes_value":true,"multiple":false}]},
  {"name":"list","path":"agent memory list","about":"list memories","invokable":true,"args":[]}
 ]}
]}"#;

#[test]
fn registry_gate_and_invoke_round_trip() {
    let reg = Registry::new(parse_catalog(&json(STUB)).unwrap());
    let gated: Vec<String> = reg.tools(false).iter().map(|t| t.name.clone()).collect();
    let open: Vec<String> = reg.tools(true).iter().map(|t| t.name.clone()).collect();
    assert!(!gated.contains(&"memory_add".to_string()), "write tool hidden when gated");
    assert!(gated.contains(&"memory_list".to_string()), "read tool always listed");
    assert!(open.contains(&"memory_add".to_string()), "write tool listed when allowed");

    let add = reg.get("memory_add").unwrap();
    let given = object(r#"{ "type": "feedback", "content": "hello-mcp" }"#);
    let argv = build_argv(add, &given).unwrap();
    assert_eq!(
        argv,
        vec!["memory", "add", "--type", "feedback", "--content", "hello-mcp"]
    );
    match plan_call(&reg, "memory_add", &given, true) {
        CallPlan::Run(planned) => assert_eq!(planned, argv),
        CallPlan::Refuse(m) => panic!("{m}"),
    }
    let (failed, text) = call_answer(true, "stub-id-1\n", "");
    assert!(!failed, "memory_add exits zero");
    assert!(text.contains("stub-id-1"), "stdout carries the new id");

    let list = reg.get("memory_list").unwrap();
    let argv2 = build_argv(list, &object("{}")).unwrap();
    assert_eq!(argv2, vec!["memory", "list"]);
    let (failed2, listed) = call_answer(true, "stub-id-1 hello-mcp\n", "");
    assert!(!failed2, "memory_list exits zero");
    assert!(listed.contains("hello-mcp"), "the list shows the added memory");
}

#[test]
fn a_call_is_refused_or_planned() {
    let reg = Registry::new(fixture());
    assert_eq!(reg.counts(), (3, 1));
    match plan_call(&reg, "memory_add", &object(r#"{ "type": "user" }"#), false) {
        CallPlan::Refuse(m) => assert!(m.contains("memory_add"), "{m}"),
        CallPlan::Run(_) => panic!("a write must be refused"),
    }
    match plan_call(&reg, "memory_recall", &object(r#"{ "query": "q" }"#), false) {
        CallPlan::Run(argv) => assert_eq!(argv, vec!["memory", "recall", "q", "--json"]),
        CallPlan::Refuse(m) => panic!("{m}"),
    }
    assert!(matches!(
        plan_call(&reg, "nope", &object("{}"), true),
        CallPlan::Refuse(_)
    ));
    assert!(matches!(
        plan_call(&reg, "memory_recall", &object("{}"), true),
        CallPlan::Refuse(_)
    ));
}

#[test]
fn a_call_is_answered_with_its_output() {
    assert_eq!(call_answer(true, "out\n", ""), (false, "out\n".to_string()));
    let (failed, text) = call_answer(false, "", "boom");
    assert!(failed);
    assert!(text.contains("boom"), "{text}");
}

#[test]
fn server_options_are_read() {
    assert_eq!(
        parse_listen(&texts(&["--listen", "127.0.0.1:7700"])).as_deref(),
        Some("127.0.0.1:7700")
    );
    assert_eq!(parse_listen(&texts(&["--stdio"])), None);
    assert_eq!(comma_list(" a, b,,c "), texts(&["a", "b", "c"]));
    let hosts = parse_allowed_hosts(&texts(&["--allow-host", "h1", "--allow-host=h2"]), &env(&[]));
    assert!(hosts.contains(&"h1".to_string()) && hosts.contains(&"h2".to_string()));
    assert!(writes_allowed(&texts(&["--allow-writes"]), &env(&[])));
    assert!(!writes_allowed(&Vec::new(), &env(&[])));
    assert_eq!(resolve_agent_bin(&env(&[("AGENT_BIN", "/opt/agent")])), "/opt/agent");
}
