use agent_store::dates::{day_start_epoch, parse_ymd};
use agent_store::glob::{any_match, glob_match, like_match};
use agent_store::history::Printed;
use agent_store::kx::{
    config_path, date_str, decide_ingest, dedup_first_seen, expand_home, extract_entry,
    filename_date, leaf_component, like_escape, plan_source, pointer_of, read_entry,
    redacted_parse_error, report_ingest, report_ingest_json, select_sources, slugify, walk_step,
    EntryKind, IngestAction, KxFilters, KxListArgs, KxSearchArgs, KxSection, KxSource,
    SourceReport, WalkStep, BUILTIN_MAX_HITS, KX_TYPE,
};
use agent_store::kx_query::{check_ingest, kx_no_embedder_answer, no_sources_answer};
use agent_store::json::Json;
use agent_store::recall::Hit;
use agent_store::rows::Memory;
use agent_store::search::search_statement;
use agent_store::settings::Settings;
use agent_store::sql::{ScopeFilter, SqlValue, TypeFilter};
use agent_store::store::Store;
use rusqlite::types::Value;
use rusqlite::Connection;

fn env(pairs: &[(&str, &str)]) -> Settings {
    Settings {
        env: pairs.iter().map(|(k, v)| (k.to_string(), v.to_string())).collect(),
        config: None,
    }
}

fn texts(xs: &[&str]) -> Vec<String> {
    xs.iter().map(|s| s.to_string()).collect()
}

fn day(d: &str) -> i64 {
    day_start_epoch(parse_ymd(d).unwrap())
}

#[test]
fn slug_matches_spec_example() {
    assert_eq!(slugify("harness-model-fit/findings.md"), "harness-model-fit-findings-md");
    assert_eq!(slugify("A B/c.MD"), "a-b-c-md");
    assert_eq!(slugify("///weird__name///"), "weird-name");
}

#[test]
fn filename_date_parses_ymd_else_none() {
    assert_eq!(filename_date("2024-03-15-notes.md"), Some(day("2024-03-15")));
    assert_eq!(filename_date("2024-03-15-notes.md"), Some(1_710_460_800));
    assert_eq!(filename_date("notes.md"), None);
    assert_eq!(filename_date("2024-13-40.md"), None);
}

#[test]
fn extract_entry_prefers_h12_heading() {
    let (desc, text) = extract_entry("\n\n## Findings\n\nBody paragraph here.\n");
    assert_eq!(desc, "Findings");
    assert!(text.contains("Findings") && text.contains("Body paragraph"));
    let (desc2, _) = extract_entry("just a line\nsecond line");
    assert_eq!(desc2, "just a line");
    let (desc3, _) = extract_entry("### deep\nreal paragraph");
    assert_eq!(desc3, "real paragraph");
}

#[test]
fn description_capped_at_160_chars() {
    let long = "# ".to_string() + &"x".repeat(500);
    let (desc, _) = extract_entry(&long);
    assert_eq!(desc.chars().count(), 160);
}

#[test]
fn glob_matches_default_excludes_really() {
    assert!(glob_match("*.log", "a/b/c.log"));
    assert!(!glob_match("*.log", "a/b/c.md"));
    assert!(glob_match("*.lock", "Cargo.lock"));
    assert!(glob_match("**/.git/**", ".git/config"));
    assert!(glob_match("**/.git/**", "sub/dir/.git/HEAD"));
    assert!(glob_match("**/target/**", "target/debug/x"));
    assert!(glob_match("**/node_modules/**", "a/node_modules/pkg/index.js"));
    assert!(!glob_match("**/target/**", "src/targetish/x"));
    assert!(!glob_match("**/git/**", "a/gitlab/x"));
}

#[test]
fn globs_backtrack_and_count_characters() {
    assert!(glob_match("*ab", "aab"));
    assert!(glob_match("?", "é"));
    assert!(!glob_match("?", "ab"));
    assert!(glob_match("**", "a/b/c"));
    assert!(glob_match("*", "anything"));
    assert!(glob_match("plain", "dir/plain"));
    assert!(any_match(&texts(&["*.log", "*.md"]), "x.md"));
    assert!(like_match("/home/ME/x", "%me%"));
    assert!(like_match("abc", "a_c"));
    assert!(!like_match("abc", "b%"));
}

#[test]
fn tag_filter_is_comma_anchored() {
    let f = KxFilters::new(&texts(&["cat:ml"]), &None, &None).unwrap();
    let (sql, vals) = f.predicates("m");
    assert!(sql.contains("LIKE ? ESCAPE"));
    assert_eq!(vals.len(), 1);
    match &vals[0] {
        SqlValue::Text(s) => assert_eq!(s, "%,cat:ml,%"),
        _ => panic!("expected text pattern"),
    }
    assert_eq!(like_escape("50%_\\"), "50\\%\\_\\\\");
}

#[test]
fn date_filters_are_inclusive_whole_day() {
    let d = Some("2024-01-10".to_string());
    let f = KxFilters::new(&Vec::new(), &d, &d).unwrap();
    let from = day("2024-01-10");
    let to_excl = day("2024-01-11");
    assert_eq!(f.from, Some(from));
    assert_eq!(f.to_exclusive, Some(to_excl));
    let noon = from + 12 * 3600;
    assert!(noon >= from && noon < to_excl);
    let err = KxFilters::new(&Vec::new(), &Some("nope".to_string()), &None).unwrap_err();
    assert_eq!(err, "invalid date 'nope' (expected YYYY-MM-DD)");
}

#[test]
fn config_defaults_apply_when_kx_absent() {
    let cfg = KxSection::default();
    assert_eq!(cfg.default_scope, "work");
    assert_eq!(cfg.max_hits, BUILTIN_MAX_HITS);
    assert_eq!(cfg.default_extensions, vec!["md".to_string()]);
    assert!(cfg.sources.is_empty());
    assert!(cfg.default_exclude.contains(&"**/.git/**".to_string()));
}

#[test]
fn malformed_config_errors_without_echoing_content() {
    let bad = "[openrouter]\napi_key = \"sk-or-v1-SECRET\"\nthis is not toml =";
    let report = match bad.parse::<toml::Table>() {
        Ok(_) => panic!("this is no configuration"),
        Err(e) => e.to_string(),
    };
    let err = redacted_parse_error("cfg.toml", &report);
    assert!(!err.contains("SECRET"), "error leaked a secret: {err}");
    assert!(err.contains("cfg.toml"));
}

fn source(path: &str) -> KxSource {
    KxSource {
        path: path.to_string(),
        extensions: Vec::new(),
        exclude_globs: Vec::new(),
        scope: None,
        tags: texts(&["topic:test"]),
        category: Some("notes".to_string()),
    }
}

/// Takes in the files of a corpus, as a walk finds them.
fn ingest(
    s: &mut Store,
    cfg: &KxSection,
    files: &[(&str, &str)],
    force: bool,
) -> Vec<IngestAction> {
    let root = "/c/mycorpus";
    let plan = plan_source(cfg, &source(root), root);
    let mut out = Vec::new();
    for (rel, body) in files {
        let parts: Vec<&str> = rel.split('/').collect();
        let mut reached = true;
        for depth in 0..parts.len() - 1 {
            let step = walk_step(
                EntryKind::Directory,
                &parts[..=depth].join("/"),
                &None,
                depth,
                cfg.max_depth,
                &plan.extensions,
                &plan.excludes,
            );
            reached = reached && step == WalkStep::Descend;
        }
        let name = parts[parts.len() - 1];
        let ext = name.rsplit_once('.').map(|p| p.1.to_string());
        let step = walk_step(
            EntryKind::File,
            rel,
            &ext,
            parts.len() - 1,
            cfg.max_depth,
            &plan.extensions,
            &plan.excludes,
        );
        if !reached || step != WalkStep::Take {
            continue;
        }
        let entry = read_entry(&format!("{root}/{rel}"), rel, name, body, 77);
        out.push(s.ingest_entry(&entry, &plan.tags, root, &plan.scope, force, 5000));
    }
    out
}

#[test]
fn ingest_respects_max_depth() {
    let mut s = Store::new();
    let mut cfg = KxSection::default();
    cfg.max_depth = 1;
    ingest(
        &mut s,
        &cfg,
        &[
            ("top.md", "# Top\n\nbody"),
            ("a/mid.md", "# Mid\n\nbody"),
            ("a/b/deep.md", "# Deep\n\nbody"),
        ],
        false,
    );
    let names: Vec<&str> = s.memories.iter().map(|m| m.name.as_str()).collect();
    assert!(names.iter().any(|n| n.contains("top")), "root file ingested: {names:?}");
    assert!(names.iter().any(|n| n.contains("mid")), "depth-1 file ingested: {names:?}");
    assert!(
        !names.iter().any(|n| n.contains("deep")),
        "depth-2 file beyond max_depth=1 excluded: {names:?}"
    );
}

#[test]
fn ingest_inserts_rows_with_expected_metadata() {
    let mut s = Store::new();
    ingest(
        &mut s,
        &KxSection::default(),
        &[
            ("2024-03-15-alpha.md", "# Alpha\n\nAlpha body paragraph."),
            ("nested/beta.md", "Just a plain paragraph, no heading."),
            ("skip.txt", "not an md file"),
        ],
        false,
    );
    assert_eq!(s.memories.len(), 2, "only the two .md files ingested (.txt excluded)");
    let m = s.memories.iter().find(|m| m.name.contains("alpha")).unwrap();
    assert_eq!(m.type_, KX_TYPE);
    assert_eq!(m.name, "2024-03-15-alpha-md");
    assert_eq!(m.description, "Alpha");
    assert_eq!(m.scope, "work", "default_scope applied");
    assert!(m.tags.contains("topic:test"), "source tag kept: {}", m.tags);
    assert!(m.tags.contains("cat:notes"), "category tag added: {}", m.tags);
    assert!(m.tags.contains("repo:mycorpus"), "repo tag from leaf: {}", m.tags);
    assert!(m.source.starts_with("kxsha:"), "content hash stored: {}", m.source);
    assert_eq!(m.valid_from, Some(day("2024-03-15")), "filename date drives valid_from");
    let beta = s.memories.iter().find(|m| m.name.contains("beta")).unwrap();
    assert_eq!(beta.valid_from, Some(77), "the time of the file where its name has no date");
    assert_eq!(pointer_of(&beta.content), "/c/mycorpus/nested/beta.md");
}

#[test]
fn ingest_updates_changed_and_skips_unchanged() {
    let mut s = Store::new();
    let cfg = KxSection::default();
    let first = [("doc.md", "# One\n\nfirst body")];
    assert_eq!(ingest(&mut s, &cfg, &first, false), vec![IngestAction::Inserted]);
    let id = s.memories[0].id.clone();
    assert_eq!(id.len(), 16);
    let hash1 = s.memories[0].source.clone();
    assert_eq!(ingest(&mut s, &cfg, &first, false), vec![IngestAction::Skipped]);
    assert_eq!(s.memories.len(), 1, "skip must not duplicate the row");
    assert_eq!(s.memories[0].source, hash1, "unchanged doc keeps its hash");
    assert_eq!(ingest(&mut s, &cfg, &first, true), vec![IngestAction::Updated]);
    let second = [("doc.md", "# Two\n\nsecond body, changed")];
    assert_eq!(ingest(&mut s, &cfg, &second, false), vec![IngestAction::Updated]);
    assert_eq!(s.memories.len(), 1, "update must not create a new row (true UPDATE)");
    assert_eq!(s.memories[0].id, id);
    assert_eq!(s.memories[0].description, "Two", "row reflects the changed content");
    assert_ne!(s.memories[0].source, hash1, "content hash changed on update");
}

#[test]
fn ingest_summarize_true_errors() {
    let mut cfg = KxSection::default();
    assert!(check_ingest(&cfg).is_ok());
    cfg.summarize = true;
    let err = check_ingest(&cfg).unwrap_err();
    assert!(err.contains("summarize=true"), "loud error expected: {err}");
}

#[test]
fn an_ingest_is_decided_by_the_hash() {
    let e = read_entry("/a", "a", "a", "body", 0);
    let hash = Some(e.source.clone());
    assert_eq!(decide_ingest(&None, &e, false), IngestAction::Inserted);
    assert_eq!(decide_ingest(&hash, &e, false), IngestAction::Skipped);
    assert_eq!(decide_ingest(&hash, &e, true), IngestAction::Updated);
    assert_eq!(decide_ingest(&Some("kxsha:x".to_string()), &e, false), IngestAction::Updated);
}

#[test]
fn sources_are_chosen_and_planned() {
    let sources = vec![source("/home/x/mu"), source("/home/x/nu/")];
    assert_eq!(select_sources(&sources, &None).unwrap(), vec![0, 1]);
    assert_eq!(select_sources(&sources, &Some("nu".to_string())).unwrap(), vec![1]);
    assert_eq!(
        select_sources(&sources, &Some("pi".to_string())).unwrap_err(),
        "--source 'pi' matches no configured [[kx.sources]]"
    );
    assert_eq!(leaf_component("/a/b//"), "b");
    assert_eq!(dedup_first_seen(&texts(&["b", "", "a", "b"])), texts(&["b", "a"]));
    assert_eq!(expand_home("~/notes", &env(&[("HOME", "/h")])), "/h/notes");
    assert_eq!(expand_home("$HOME/notes", &env(&[("HOME", "/h/")])), "/h/notes");
    assert_eq!(expand_home(" ~ ", &env(&[("HOME", "/h")])), "/h");
    assert_eq!(expand_home("~/notes", &env(&[])), "~/notes");
    assert!(config_path(&None, &env(&[])).is_err());
    assert_eq!(config_path(&Some("/c.toml".to_string()), &env(&[])).unwrap(), "/c.toml");
}

#[test]
fn an_ingest_is_reported() {
    let mut r = SourceReport::new("/c");
    r.count(Some(IngestAction::Inserted));
    r.count(None);
    let reports = vec![r];
    assert_eq!(
        report_ingest(&reports, true),
        vec![
            "[dry-run] /c: 2 scanned, +1 inserted, ~0 updated, =0 skipped",
            "[dry-run] total: 2 scanned, +1 inserted, ~0 updated, =0 skipped",
        ]
    );
    let j = report_ingest_json(&reports, false);
    assert_eq!(
        j.text(),
        r#"{"dry_run":false,"sources":[{"inserted":1,"path":"/c","scanned":2,"skipped":0,"updated":0}],"totals":{"inserted":1,"scanned":2,"skipped":0,"updated":0}}"#
    );
    assert_eq!(
        no_sources_answer(true).text(),
        r#"{"dry_run":true,"note":"no [kx].sources configured","sources":[]}"#
    );
    assert!(kx_no_embedder_answer("q").str_at("error").unwrap().contains("no embedder"));
}

fn kx_row(id: &str, name: &str, tags: &str, scope: &str, valid_from: i64) -> Memory {
    Memory {
        id: id.to_string(),
        type_: "kx".to_string(),
        name: name.to_string(),
        description: "desc".to_string(),
        content: format!("/abs/{name} findings note"),
        source: "kxsha:deadbeef".to_string(),
        tags: tags.to_string(),
        cwd: String::new(),
        scope: scope.to_string(),
        is_active: true,
        lifecycle: "active".to_string(),
        created_at: 1000,
        updated_at: 1000,
        archived_at: None,
        trashed_at: None,
        purge_after: None,
        superseded_by: None,
        supersede_reason: None,
        verified_at: None,
        source_ref: Some("/abs/path".to_string()),
        author: "kx".to_string(),
        valid_from: Some(valid_from),
        valid_to: None,
    }
}

fn searchable(s: &Store) -> Connection {
    let conn = Connection::open_in_memory().unwrap();
    conn.execute(
        "CREATE TABLE memories (id TEXT, type TEXT, name TEXT, content TEXT, tags TEXT, \
         scope TEXT, author TEXT, is_active INTEGER, valid_from INTEGER)",
        (),
    )
    .unwrap();
    conn.execute("CREATE VIRTUAL TABLE memories_fts USING fts5(name, content)", ()).unwrap();
    for m in &s.memories {
        conn.execute(
            "INSERT INTO memories VALUES (?1, ?2, ?3, ?4, ?5, ?6, ?7, ?8, ?9)",
            (
                &m.id,
                &m.type_,
                &m.name,
                &m.content,
                &m.tags,
                &m.scope,
                &m.author,
                m.is_active,
                m.valid_from,
            ),
        )
        .unwrap();
        conn.execute("INSERT INTO memories_fts VALUES (?1, ?2)", (&m.name, &m.content)).unwrap();
    }
    conn
}

fn run(
    conn: &Connection,
    query: &str,
    type_: &TypeFilter,
    scope: &ScopeFilter,
    author: &Option<String>,
    f: &KxFilters,
) -> Vec<String> {
    let st = match search_statement(query, type_, scope, author, f, 50) {
        Some(st) => st,
        None => return Vec::new(),
    };
    let bound = st.bound.into_iter().map(|v| match v {
        SqlValue::Text(s) => Value::Text(s),
        SqlValue::Integer(i) => Value::Integer(i),
    });
    let mut stmt = conn.prepare(&st.sql).unwrap();
    let rows = stmt.query_map(rusqlite::params_from_iter(bound), |r| r.get(0)).unwrap();
    rows.map(|r| r.unwrap()).collect()
}

fn no_filters() -> KxFilters {
    KxFilters::new(&Vec::new(), &None, &None).unwrap()
}

fn search_ids(conn: &Connection, args: &KxSearchArgs) -> Vec<String> {
    let f = KxFilters::new(&args.tags, &args.from, &args.to).unwrap();
    let scope = ScopeFilter::for_explicit(&args.scope);
    run(conn, &args.query, &TypeFilter::Only(KX_TYPE.to_string()), &scope, &None, &f)
}

fn base_search(query: &str) -> KxSearchArgs {
    KxSearchArgs {
        query: query.to_string(),
        scope: None,
        tags: Vec::new(),
        from: None,
        to: None,
        limit: None,
        config: None,
        json: false,
    }
}

#[test]
fn kx_search_narrows_by_scope_tag_and_date() {
    let mut s = Store::new();
    s.memories.push(kx_row("w1", "note-w1", "repo:mu,cat:ml", "work", day("2024-01-05")));
    s.memories.push(kx_row("p1", "note-p1", "repo:mu,cat:ops", "personal", day("2024-02-05")));
    s.memories.push(kx_row("s1", "note-s1", "repo:mu,cat:ml", "shared", day("2024-03-05")));
    let conn = searchable(&s);

    let mut all = search_ids(&conn, &base_search("findings"));
    all.sort();
    assert_eq!(all, vec!["p1", "s1", "w1"]);

    let mut args = base_search("findings");
    args.scope = Some("work".to_string());
    let mut by_scope = search_ids(&conn, &args);
    by_scope.sort();
    assert_eq!(by_scope, vec!["s1", "w1"]);

    let mut args = base_search("findings");
    args.tags = texts(&["cat:ml"]);
    let mut by_tag = search_ids(&conn, &args);
    by_tag.sort();
    assert_eq!(by_tag, vec!["s1", "w1"]);

    let mut args = base_search("findings");
    args.from = Some("2024-02-01".to_string());
    args.to = Some("2024-02-28".to_string());
    assert_eq!(search_ids(&conn, &args), vec!["p1"]);

    args.tags = texts(&["cat:ml"]);
    assert!(search_ids(&conn, &args).is_empty());
}

#[test]
fn generic_memory_excludes_kx_but_kx_filter_includes_it() {
    let mut s = Store::new();
    s.memories.push(kx_row("k1", "kx-widget", "repo:mu", "work", 1000));
    let mut m = kx_row("m1", "proj-widget", "", "shared", 1000);
    m.type_ = "project".to_string();
    m.content = "widget content".to_string();
    m.author = "a".to_string();
    s.memories.push(m);
    let conn = searchable(&s);
    let generic = run(
        &conn,
        "widget",
        &TypeFilter::ExcludeKx(None),
        &ScopeFilter::All,
        &None,
        &no_filters(),
    );
    assert_eq!(generic, vec!["m1"], "generic recall hides type='kx'");
    assert_eq!(search_ids(&conn, &base_search("widget")), vec!["k1"]);
    let by_author = run(
        &conn,
        "widget",
        &TypeFilter::ExcludeKx(Some("project".to_string())),
        &ScopeFilter::All,
        &Some("nobody".to_string()),
        &no_filters(),
    );
    assert!(by_author.is_empty());
    assert!(search_statement(
        "-:*",
        &TypeFilter::ExcludeKx(None),
        &ScopeFilter::All,
        &None,
        &no_filters(),
        5
    )
    .is_none());
}

fn list_args(tags: &[&str], limit: Option<usize>, json: bool) -> KxListArgs {
    KxListArgs { scope: None, tags: texts(tags), from: None, to: None, limit, json }
}

#[test]
fn the_index_is_browsed_and_shown() {
    let mut s = Store::new();
    s.memories.push(kx_row("w1", "one", "cat:ml", "work", day("2024-01-05")));
    s.memories.push(kx_row("w2", "two", "cat:mlops", "work", day("2024-01-06")));
    s.memories[1].updated_at = 2000;
    match s.kx_list(&list_args(&[], Some(1), false)).unwrap() {
        Printed::Lines(ls) => {
            assert_eq!(ls, vec!["[w2] two <work> (2024-01-06) — desc  [cat:mlops]"])
        }
        Printed::Json(_) => panic!("text was asked for"),
    }
    match s.kx_list(&list_args(&["cat:ml"], None, true)).unwrap() {
        Printed::Json(j) => {
            let items = j.array_at("results").unwrap();
            assert_eq!(items.len(), 1);
            assert_eq!(items[0].str_at("id"), Some("w1"));
            assert_eq!(items[0].str_at("date"), Some("2024-01-05"));
            assert_eq!(items[0].str_at("scope"), Some("work"));
        }
        Printed::Lines(_) => panic!("JSON was asked for"),
    }
    let mut bad = list_args(&[], None, false);
    bad.from = Some("x".to_string());
    assert!(s.kx_list(&bad).is_err());
    assert_eq!(
        s.print_kx_search(&vec![0]),
        vec![
            "## kx search\n",
            "one — desc",
            "  /abs/one findings note  (2024-01-05)  [cat:ml]"
        ]
    );
    let answer = s.kx_search_answer(&vec![0], "q");
    assert_eq!(
        answer.array_at("results").unwrap()[0].str_at("path"),
        Some("/abs/one findings note")
    );
    let hits = vec![Hit {
        at: 0,
        score: Json::parse("0.9").unwrap(),
        cosine: Json::parse("0.8").unwrap(),
        score_shown: "0.900".to_string(),
        cosine_shown: "0.800".to_string(),
        via: None,
        conflicts: Vec::new(),
    }];
    assert_eq!(s.print_kx_recall(&hits, "m", "0.50")[1], "[0.900] one — desc");
    assert_eq!(
        s.print_kx_recall(&Vec::new(), "m", "0.50")[1],
        "(no entries at or above min_score 0.50)"
    );
    let answer = s.kx_recall_answer(&hits, "m", "q");
    assert_eq!(answer.array_at("results").unwrap()[0].get("cosine").unwrap().text(), "0.8");
    assert_eq!(date_str(None), "");
}
