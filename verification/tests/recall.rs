use agent_store::embed::{
    blob_to_f32, content_hash, count_mismatch, embedder_chain, f32_to_blob, http_failure,
    memory_embed_text, needs_embedding, reported_error, select_embedder, unreadable_answer,
    ChainLink, MockEmbedder, OpenRouterEmbedder,
};
use agent_store::json::{Json, JsonObject};
use agent_store::kx::KxFilters;
use agent_store::recall::{
    batch_end, days_before, fallback_search, hotspots, no_embedder_answer, query_topic,
    reindex_first_line, reindex_last_line, Hit, RecallArgs, RecallLogRow, ReindexArgs,
};
use agent_store::rows::Memory;
use agent_store::settings::Settings;
use agent_store::sql::{ScopeFilter, TypeFilter};
use agent_store::stats::{recall_stats, Average, RecallStatsArgs, Threshold};
use agent_store::store::{Rank, Store};

fn rank(x: f64) -> Rank {
    let b = x.to_bits() as i64;
    Rank { key: if b >= 0 { b } else { i64::MIN - b } }
}

fn with(env: &[(&str, &str)], config: Option<&str>) -> Settings {
    Settings {
        env: env.iter().map(|(k, v)| (k.to_string(), v.to_string())).collect(),
        config: config.map(|s| s.to_string()),
    }
}

fn row(id: &str, type_: &str, lifecycle: &str) -> Memory {
    Memory {
        id: id.to_string(),
        type_: type_.to_string(),
        name: format!("n-{id}"),
        description: "d".to_string(),
        content: "one\ntwo".to_string(),
        source: String::new(),
        tags: String::new(),
        cwd: String::new(),
        scope: "shared".to_string(),
        is_active: true,
        lifecycle: lifecycle.to_string(),
        created_at: 0,
        updated_at: 0,
        archived_at: None,
        trashed_at: None,
        purge_after: None,
        superseded_by: None,
        supersede_reason: None,
        verified_at: None,
        source_ref: None,
        author: "w".to_string(),
        valid_from: None,
        valid_to: None,
    }
}

fn args(full: bool) -> RecallArgs {
    RecallArgs {
        query: "q".to_string(),
        k: 5,
        type_: None,
        compare: false,
        scope: None,
        json: true,
        full,
        rank: "v1".to_string(),
    }
}

fn hit(at: usize) -> Hit {
    Hit {
        at,
        score: Json::parse("0.5").unwrap(),
        cosine: Json::parse("0.75").unwrap(),
        score_shown: "0.500".to_string(),
        cosine_shown: "0.750".to_string(),
        via: Some("old (1970-01-01)".to_string()),
        conflicts: vec!["z".to_string()],
    }
}

#[test]
fn a_vector_survives_its_bytes() {
    let v: Vec<u32> = [1.5f32, -0.25, 0.0].iter().map(|x| x.to_bits()).collect();
    let blob = f32_to_blob(&v);
    assert_eq!(&blob[..4], &1.5f32.to_le_bytes());
    assert_eq!(blob_to_f32(&blob), v);
    let mut cut = blob.clone();
    cut.pop();
    assert_eq!(blob_to_f32(&cut).len(), 2);
}

#[test]
fn hashes_are_hexadecimal() {
    assert_eq!(
        content_hash("abc"),
        "ba7816bf8f01cfea414140de5dae2223b00361a396177a9cb410ff61f20015ad"
    );
    assert!(needs_embedding(&None, "abc"));
    assert!(!needs_embedding(&Some(content_hash("abc")), "abc"));
    assert!(needs_embedding(&Some(content_hash("x")), "abc"));
}

#[test]
fn embedded_text_is_cut() {
    assert_eq!(memory_embed_text("n", "d", "c"), "n\n\nd\n\nc");
    let long = memory_embed_text("n", "d", &"é".repeat(30_000));
    assert!(long.len() <= 24_000);
    assert!(long.starts_with("n\n\nd\n\n"));
}

#[test]
fn the_stand_in_depends_on_the_text_alone() {
    let m = MockEmbedder::new();
    assert_eq!(m.samples("a"), m.samples("a"));
    assert_ne!(m.samples("a"), m.samples("b"));
    assert_eq!(m.samples("a").len(), m.dims);
    assert!(!m.model_id().is_empty());
}

#[test]
fn embedders_come_from_the_settings() {
    let none = with(&[], None);
    assert!(!embedder_chain(&none).is_empty());
    assert!(matches!(select_embedder(&none), ChainLink::Mock(_)));
    let s = with(&[("OPENROUTER_API_KEY", "k")], None);
    let e = OpenRouterEmbedder::from_env(&s).unwrap();
    assert!(e.request_url().ends_with("/embeddings"));
    let body = e.request_body(&vec!["x".to_string()]);
    assert_eq!(body.str_at("model"), Some(e.model_id()));
    assert!(e.dims_warning(Some(e.dims)).is_none());
    assert!(e.dims_warning(Some(e.dims + 1)).is_some());
    let rotated = with(&[], Some("[openrouter]\napi_key = \"new\"\n"));
    assert_eq!(e.retry_key(&rotated, "HTTP 401 from x").as_deref(), Some("new"));
    assert_eq!(e.retry_key(&rotated, "HTTP 500 from x"), None);
    assert!(e.first_failure_stands("HTTP 401 from x"));
    assert!(!e.first_failure_stands("HTTP 500 from x"));
    assert!(http_failure(401, "no").contains("401"));
    assert!(reported_error(&Json::parse("{}").unwrap()).is_none());
    assert!(reported_error(&Json::parse(r#"{"error":{"message":"m"}}"#).unwrap()).is_some());
    assert!(!unreadable_answer(&Json::parse("{}").unwrap()).is_empty());
    assert!(count_mismatch(2, 2).is_none());
    assert!(count_mismatch(2, 1).is_some());
}

#[test]
fn a_recall_compares_what_it_may() {
    let mut s = Store::new();
    s.memories.push(row("a", "project", "active"));
    s.memories.push(row("b", "kx", "active"));
    s.memories.push(row("c", "project", "superseded"));
    s.memories.push(row("d", "project", "active"));
    let embedded = vec!["a".to_string(), "b".to_string(), "c".to_string()];
    let all = KxFilters::new(&Vec::new(), &None, &None).unwrap();
    let any = TypeFilter::ExcludeKx(None);
    assert_eq!(s.recall_candidates(&any, &ScopeFilter::All, &all, true, &embedded), vec![0, 2]);
    assert_eq!(s.recall_candidates(&any, &ScopeFilter::All, &all, false, &embedded), vec![0]);
    let missing = ReindexArgs { missing: true, batch: 2 };
    assert_eq!(s.reindex_rows(&missing, &embedded), vec![3]);
    let anew = ReindexArgs { missing: false, batch: 2 };
    assert_eq!(s.reindex_rows(&anew, &embedded).len(), 4);
    assert_eq!(batch_end(0, 5, 2), 2);
    assert_eq!(batch_end(4, 5, 2), 5);
    assert_eq!(batch_end(0, 5, 0), 1);
    assert_eq!(reindex_first_line(0, "m", 2), "nothing to embed (model=m)");
    assert_eq!(reindex_last_line(1, 2), "reindex complete: 1 embedded, 2 failed");
    assert_eq!(days_before(86_400, 1), 0);
}

#[test]
fn only_the_newer_ranking_credits() {
    assert!(args(false).credits());
    let mut older = args(false);
    older.rank = "legacy".to_string();
    assert!(!older.credits());
}

#[test]
fn a_recall_is_answered_and_shown() {
    let mut s = Store::new();
    s.memories.push(row("a", "project", "active"));
    let hits = vec![hit(0)];
    let j = s.recall_answer(&hits, "m", &args(true));
    let r = &j.array_at("results").unwrap()[0];
    assert_eq!(r.str_at("id"), Some("a"));
    assert_eq!(r.get("cosine").unwrap().text(), "0.75");
    assert_eq!(r.str_at("matched_via_superseded"), Some("old (1970-01-01)"));
    assert_eq!(r.get("possible_conflict_with").unwrap().text(), r#"["z"]"#);
    assert_eq!(r.str_at("content"), Some("one\ntwo"));
    let lines = s.print_recall(&hits, "m", &args(true));
    assert_eq!(lines[0], "## Semantic recall (model: m)\n");
    assert_eq!(lines[1], "[0.500|c0.750] [a] (project) n-a — d  [1970-01-01]");
    assert_eq!(lines[3], "  matched via superseded old (1970-01-01)");
    assert_eq!(lines[4], "  possible-conflict-with: z");
    assert_eq!(lines[5], "  one\n  two\n");
    assert_eq!(
        s.recall_log(&hits),
        r#"[{"cosine":0.75,"id":"a","name":"n-a","score":0.5}]"#
    );
    let empty = s.recall_answer(&Vec::new(), "m", &args(false));
    assert!(empty.str_at("error").unwrap().contains("agent memory reindex"));
    assert_eq!(no_embedder_answer("q").str_at("model"), Some("lexical-fallback"));
    let f = fallback_search(&args(false));
    assert_eq!((f.query.as_str(), f.limit), ("q", 5));
}

fn logged(ts: i64, query: &str, top: Option<f64>, compare: i64, hits: Option<i64>) -> RecallLogRow {
    RecallLogRow {
        ts,
        query: query.to_string(),
        k: 5,
        top_score: top.map(rank),
        top_shown: format!("{:.3}", top.unwrap_or(0.0)),
        type_filter: None,
        results_json: r#"[{"id":"a","name":"n"}]"#.to_string(),
        compare_used: compare,
        fts_hits: hits,
    }
}

fn stats(gaps: bool, spots: bool, missed: bool) -> RecallStatsArgs {
    RecallStatsArgs {
        gaps,
        gaps_threshold: Threshold { rank: rank(0.45), shown: "0.45".to_string() },
        hotspots: spots,
        recall_vs_search: missed,
        rvs_threshold: Threshold { rank: rank(0.6), shown: "0.60".to_string() },
        days: 30,
        limit: 20,
    }
}

#[test]
fn the_log_of_recalls_is_told() {
    let log = vec![
        logged(100, "rust jails", Some(0.9), 1, Some(0)),
        logged(200, "rust hosts", Some(0.2), 0, None),
        logged(300, "?", None, 0, None),
    ];
    let spots = hotspots(&log, 0);
    assert_eq!(spots.len(), 2);
    assert_eq!(spots[0].topic, "rust");
    assert_eq!(spots[0].at, vec![0, 1]);
    assert_eq!(query_topic("?"), "_");
    let avgs = vec![
        Average { rank: rank(0.55), shown: "0.550".to_string() },
        Average { rank: rank(0.0), shown: "0.000".to_string() },
    ];
    let gaps = recall_stats(&stats(true, false, false), 0, &log, &spots, &avgs);
    assert_eq!(gaps[0], "## Weak-recall queries (top_score < 0.45, last 30 days)\n");
    assert_eq!(gaps[1], "  [0.000]  k=5  1970-01-01  (?)");
    assert_eq!(gaps[2], "  [0.200]  k=5  1970-01-01  (rust hosts)");
    assert_eq!(gaps[3], "");
    let hot = recall_stats(&stats(false, true, false), 0, &log, &spots, &avgs);
    assert_eq!(hot[1], "  [0.550]  n=  2  rust");
    assert_eq!(hot[2], "           e.g. rust jails");
    let missed = recall_stats(&stats(false, false, true), 0, &log, &spots, &avgs);
    assert_eq!(missed[1], "  [0.900]  1970-01-01  (rust jails)");
    assert_eq!(missed[2], "           recall top: [a] n");
    let recent = recall_stats(&stats(false, false, false), 0, &log, &spots, &avgs);
    assert_eq!(recent[0], "## Recent recall calls (last 20)\n");
    assert_eq!(recent[1], "  [ -- ]  k=5  1970-01-01  ?");
    assert_eq!(recent[3], "  [0.900]  k=5 cmp fts=0  1970-01-01  rust jails");
}

#[test]
fn json_is_read_and_written() {
    let j = Json::parse(r#"{"b":[1,2.5,null],"a":"x","t":true}"#).unwrap();
    assert_eq!(j.text(), r#"{"a":"x","b":[1,2.5,null],"t":true}"#);
    assert!(j.pretty().starts_with("{\n  \"a\": \"x\""));
    assert!(j.same_as(&j.copy()));
    assert!(!j.same_as(&Json::parse("{}").unwrap()));
    assert!(j.is_true_at("t"));
    assert_eq!(j.array_at("b").unwrap()[0].as_i64(), Some(1));
    assert_eq!(j.array_at("b").unwrap()[1].as_i64(), None);
    assert_eq!(j.array_at("b").unwrap()[1].scalar_text().as_deref(), Some("2.5"));
    assert!(Json::parse("{").is_none());
    let mut o = JsonObject::new();
    o.insert_unsigned("u", 7);
    o.insert_int("i", -7);
    o.insert_int("i", 8);
    o.insert_opt("n", &None);
    assert_eq!(o.done().text(), r#"{"i":8,"n":null,"u":7}"#);
    let n = Json::parse(r#"{"score": 0.126}"#).unwrap();
    assert_eq!(n.fixed_at("score"), "0.13");
    assert!(n.same_as(&Json::from_value(n.to_value())));
}
