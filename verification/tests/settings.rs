use agent_store::cli::{ai_help, ai_text, db_path, pending_steps};
use agent_store::dialogue::{
    endpoint, peers_arguments, poll_arguments, poll_wait_ms, say_arguments, watch_step, Peers, Say,
};
use agent_store::dialogue_presence::{
    config, grant_request, hold_step, id_of, is_alive, keepalive_request, put_request,
    refresh_interval_s,
};
use agent_store::json::Json;
use agent_store::mcp::{
    call_request, initialize_request, read_sse_result, tool_text, AnswerError,
};
use agent_store::settings::{read_toml_value_from_str, Settings};
use agent_store::sql::{resolve_write_scope, ScopeFilter};
use agent_store::supersede::default_author;

const SAMPLE: &str = r#"
# comment line
[openrouter]
api_key = "sk-or-abc" # expires someday

[embed]
base_url = "http://debian13rtx4000:11434/v1"
model = 'qwen3-embedding:8b'
dims = 4096

[other]
model = "decoy"
"#;

fn with(env: &[(&str, &str)], config: Option<&str>) -> Settings {
    Settings {
        env: env.iter().map(|(k, v)| (k.to_string(), v.to_string())).collect(),
        config: config.map(|s| s.to_string()),
    }
}

fn json(text: &str) -> Json {
    Json::parse(text).unwrap()
}

#[test]
fn toml_reader_resolves_section_scoped_keys() {
    assert_eq!(
        read_toml_value_from_str(SAMPLE, "embed", "base_url").as_deref(),
        Some("http://debian13rtx4000:11434/v1")
    );
    assert_eq!(
        read_toml_value_from_str(SAMPLE, "embed", "model").as_deref(),
        Some("qwen3-embedding:8b"),
        "single quotes stripped"
    );
    assert_eq!(
        read_toml_value_from_str(SAMPLE, "embed", "dims").as_deref(),
        Some("4096"),
        "bare values pass through"
    );
    assert_eq!(
        read_toml_value_from_str(SAMPLE, "openrouter", "api_key").as_deref(),
        Some("sk-or-abc"),
        "inline comment stripped"
    );
}

#[test]
fn toml_reader_respects_section_boundaries() {
    assert_eq!(
        read_toml_value_from_str(SAMPLE, "other", "model").as_deref(),
        Some("decoy")
    );
    assert_eq!(read_toml_value_from_str(SAMPLE, "embed", "api_key"), None);
    assert_eq!(read_toml_value_from_str(SAMPLE, "missing", "model"), None);
}

#[test]
fn toml_reader_handles_dotted_fallback_section() {
    const S: &str = "\
[embed]
model = \"primary\"

[embed.fallback]
model = \"openai/text-embedding-3-small\"
dims = 1536
";
    assert_eq!(
        read_toml_value_from_str(S, "embed", "model").as_deref(),
        Some("primary")
    );
    assert_eq!(
        read_toml_value_from_str(S, "embed.fallback", "model").as_deref(),
        Some("openai/text-embedding-3-small")
    );
    assert_eq!(
        read_toml_value_from_str(S, "embed.fallback", "dims").as_deref(),
        Some("1536")
    );
    assert_eq!(read_toml_value_from_str(S, "embed", "dims"), None);
}

#[test]
fn the_environment_overrides_the_configuration() {
    let s = with(&[("EMBED_MODEL", "from-env")], Some(SAMPLE));
    assert_eq!(s.resolve_setting("embed", "model", "EMBED_MODEL").as_deref(), Some("from-env"));
    let s = with(&[("EMBED_MODEL", "")], Some(SAMPLE));
    assert_eq!(
        s.resolve_setting("embed", "model", "EMBED_MODEL").as_deref(),
        Some("qwen3-embedding:8b"),
        "an empty variable counts as unset"
    );
    assert_eq!(s.nonempty_var("EMBED_MODEL"), None);
    assert_eq!(s.var("EMBED_MODEL").as_deref(), Some(""));
}

#[test]
fn scopes_follow_flag_then_profile() {
    let work = with(&[("CLAUDE_PROFILE", "work")], None);
    assert_eq!(resolve_write_scope(&None, &work), "work");
    assert_eq!(resolve_write_scope(&Some("personal".to_string()), &work), "personal");
    assert_eq!(resolve_write_scope(&None, &with(&[], None)), "shared");
    let f = ScopeFilter::for_context(&None, &work);
    assert!(f.admits("work") && f.admits("shared") && !f.admits("personal"));
    let (sql, bound) = f.sql_and("m.scope");
    assert_eq!(sql, " AND m.scope IN (?, ?)");
    assert_eq!(bound.len(), 2);
    assert!(ScopeFilter::for_explicit(&None).admits("personal"));
}

#[test]
fn the_store_lies_where_the_environment_says() {
    assert_eq!(db_path(&with(&[("AGENT_DB", "/x.db"), ("HOME", "/h")], None)), "/x.db");
    assert_eq!(
        db_path(&with(&[("HOME", "/h")], None)),
        "/h/.local/share/agent.sqlite"
    );
    assert_eq!(db_path(&with(&[], None)), "./.local/share/agent.sqlite");
    assert_eq!(pending_steps(0, 3), vec![1, 2, 3]);
    assert_eq!(pending_steps(2, 3), vec![3]);
    assert!(pending_steps(3, 3).is_empty());
    assert!(pending_steps(0, -1).is_empty());
    assert_eq!(pending_steps(1500, 1502), vec![1501, 1502]);
}

#[test]
fn help_follows_the_command() {
    assert_ne!(ai_text("memory", "add"), ai_text("memory", "search"));
    assert_eq!(ai_text("nope", ""), ai_text("", ""));
    let args = vec!["memory".to_string(), "--json".to_string(), "add".to_string()];
    assert_eq!(ai_help(&args, false), ai_text("memory", "add"));
    let shown = json(&ai_help(&args, true));
    assert_eq!(shown.str_at("command"), Some("agent memory add"));
    assert_eq!(shown.str_at("help_ai"), Some(ai_text("memory", "add")));
    assert!(ai_help(&args, true).starts_with("{\n  \"command\""));
}

#[test]
fn id_of_tolerates_string_and_number() {
    assert_eq!(id_of(&json(r#"{"ID": "7587"}"#), "ID"), Some("7587".to_string()));
    assert_eq!(id_of(&json(r#"{"ID": 42}"#), "ID"), Some("42".to_string()));
    assert_eq!(id_of(&json(r#"{"ID": "0"}"#), "ID"), None);
    assert_eq!(id_of(&json("{}"), "ID"), None);
}

#[test]
fn presence_is_announced_under_a_lease() {
    assert!(config(&with(&[], None)).is_none());
    assert_eq!(grant_request(60).text(), r#"{"TTL":60}"#);
    let put = put_request("/p/", "peer", "7", 1000);
    assert_eq!(put.str_at("key"), Some("L3AvcGVlcg=="));
    assert_eq!(put.str_at("lease"), Some("7"));
    assert_eq!(keepalive_request("7").text(), r#"{"ID":"7"}"#);
    assert!(is_alive(&json(r#"{"result": {"TTL": "60"}}"#)));
    assert!(!is_alive(&json(r#"{"result": {}}"#)));
    let lease = Some("7".to_string());
    assert!(!hold_step(&lease, &Some(json(r#"{"result": {"TTL": "60"}}"#))));
    assert!(hold_step(&lease, &Some(json(r#"{"result": {}}"#))));
    assert!(hold_step(&lease, &None));
    assert!(hold_step(&None, &Some(json(r#"{"result": {"TTL": "60"}}"#))));
    assert!(refresh_interval_s(60) < 60);
}

#[test]
fn calls_and_answers_are_framed() {
    let call = call_request("say", json(r#"{"a":1}"#));
    assert_eq!(call.str_at("method"), Some("tools/call"));
    assert_eq!(call.get("params").unwrap().str_at("name"), Some("say"));
    assert_eq!(initialize_request("9").str_at("method"), Some("initialize"));
    let body = "event: message\ndata: {\"jsonrpc\":\"2.0\",\"id\":1,\"result\":{\"content\":[{\"type\":\"text\",\"text\":\"hi\"}]}}\n\n";
    let result = read_sse_result(body).unwrap_or_else(|e| panic!("{e:?}"));
    assert_eq!(tool_text(&result).unwrap(), "hi");
    let mixed = json(r#"{"content": [{"type": "image"}, {"text": "a"}, {"text": "b"}]}"#);
    assert_eq!(tool_text(&mixed).unwrap(), "a");
    assert_eq!(tool_text(&json(r#"{"content": [{"type": "image"}]}"#)).unwrap(), "");
    assert_eq!(tool_text(&json("{}")).unwrap(), "");
    let failed = json(r#"{"content": [{"text": "no"}], "isError": true}"#);
    assert_eq!(tool_text(&failed).unwrap_err(), "no");
    assert!(matches!(read_sse_result(""), Err(AnswerError::NoPayload)));
    assert!(matches!(read_sse_result("data: nope"), Err(AnswerError::NotJson)));
    assert!(matches!(
        read_sse_result("data: {\"error\":{\"message\":\"no\"}}"),
        Err(AnswerError::Remote(_))
    ));
    assert!(matches!(read_sse_result("data: {}"), Err(AnswerError::NoResult)));
}

#[test]
fn dialogue_calls_carry_their_arguments() {
    let s = with(&[], None);
    assert_eq!(endpoint(&None, &s), "http://localhost:7740/mcp");
    assert_eq!(endpoint(&Some("http://u".to_string()), &s), "http://u");
    let poll = poll_arguments("me", 3, 500);
    assert_eq!(poll.get("since").unwrap().as_i64(), Some(3));
    assert_eq!(poll_wait_ms(500), 10_500);
    let say = say_arguments(&Say {
        from: "a".to_string(),
        to: "b".to_string(),
        content: "hi".to_string(),
        thread: None,
        url: None,
    });
    assert_eq!(say.str_at("content"), Some("hi"));
    assert!(say.get("thread").is_none());
    let peers = peers_arguments(&Peers { role: Some("r".to_string()), url: None });
    assert_eq!(peers.str_at("role"), Some("r"));
}

#[test]
fn watching_never_goes_back() {
    let (lines, next) = watch_step(
        r#"{"messages":[{"ts":5,"from":"a","content":"x\ny"},{"ts":4}]}"#,
        3,
    );
    assert_eq!(lines, vec!["DIALOGUE a: x y", "DIALOGUE ?: "]);
    assert_eq!(next, 5);
    let (none, same) = watch_step("garbage", 3);
    assert!(none.is_empty());
    assert_eq!(same, 3);
}

#[test]
fn the_author_comes_from_the_environment() {
    assert_eq!(default_author(&with(&[("AGENT_AUTHOR", "c137")], None)), "c137");
}

#[test]
fn other_sections_do_not_matter() {
    let whole = "k = \"top\"\n[a]\nk = \"one\"\n[ b ]\nk = 2\n[b]\n# k = 9\nk = \"two\" # note\n[c]\nk = 3\n";
    let own = "[b]\n# k = 9\nk = \"two\" # note\n";
    for key in ["k", "missing"] {
        assert_eq!(
            read_toml_value_from_str(whole, "b", key),
            read_toml_value_from_str(own, "b", key)
        );
    }
    assert_eq!(read_toml_value_from_str(whole, "b", "k").as_deref(), Some("two"));
}

#[test]
fn a_value_found_is_bare() {
    let read = |v: &str| read_toml_value_from_str(&format!("[s]\nk = {v}\n"), "s", "k");
    assert_eq!(read("'\"x\"'").as_deref(), Some("x"));
    assert_eq!(read("a\"b").as_deref(), Some("a\"b"));
    assert_eq!(read("\"\""), None);
    assert_eq!(read("# only a note"), None);
}
