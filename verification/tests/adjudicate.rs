use agent_store::adjudicate::{
    build_prompt, chat_answer, chat_request, chat_url, config, format_dry_run_proposals,
    fts_or_query, is_marked, most_similar, prose_marker_clause, queue_label, sweep_first_line,
    verdict_array, AdjudicateConfig, Candidate, SweepArgs, SweepTally, Verdict,
};
use agent_store::json::Json;
use agent_store::rows::Memory;
use agent_store::settings::Settings;
use agent_store::store::{Rank, Store};
use rusqlite::Connection;

fn rank(x: f64) -> Rank {
    let b = x.to_bits() as i64;
    Rank { key: if b >= 0 { b } else { i64::MIN - b } }
}

fn cfg() -> AdjudicateConfig {
    AdjudicateConfig {
        base_url: "http://unused".to_string(),
        model: "stub".to_string(),
        auto_threshold: rank(0.8),
        queue_threshold: rank(0.5),
    }
}

fn row(id: &str, name: &str, content: &str) -> Memory {
    Memory {
        id: id.to_string(),
        type_: "project".to_string(),
        name: name.to_string(),
        description: "d".to_string(),
        content: content.to_string(),
        source: "curated".to_string(),
        tags: String::new(),
        cwd: String::new(),
        scope: "shared".to_string(),
        is_active: true,
        lifecycle: "active".to_string(),
        created_at: 1000,
        updated_at: 1000,
        archived_at: None,
        trashed_at: None,
        purge_after: None,
        superseded_by: None,
        supersede_reason: None,
        verified_at: None,
        source_ref: None,
        author: String::new(),
        valid_from: None,
        valid_to: None,
    }
}

fn seed(s: &mut Store, id: &str, name: &str, content: &str) {
    s.memories.push(row(id, name, content));
}

fn cand(s: &Store, id: &str) -> Candidate {
    s.load_candidate(id).unwrap()
}

fn verdict(candidate: usize, relation: &str, confidence: f64, rationale: &str) -> Verdict {
    Verdict {
        candidate,
        relation: relation.to_string(),
        confidence: rank(confidence),
        shown: format!("{confidence:.2}"),
        shown_raw: format!("{confidence}"),
        rationale: rationale.to_string(),
    }
}

fn lifecycle(s: &Store, id: &str) -> String {
    s.get(id).unwrap().lifecycle.clone()
}

#[test]
fn parse_verdicts_tolerates_prose_wrapping() {
    let raw = "Sure! Here is the analysis:\n```json\n[\
               {\"candidate\":1,\"relation\":\"corrects\",\"confidence\":0.95,\"rationale\":\"negation\"}\
               ]\n```\nDone.";
    match Json::parse(&verdict_array(raw).unwrap()) {
        Some(Json::Array(v)) => {
            assert_eq!(v.len(), 1);
            assert_eq!(v[0].str_at("relation"), Some("corrects"));
        }
        _ => panic!("no array"),
    }
    assert!(verdict_array("no json here").is_err());
    assert!(verdict_array("open [ only").is_err());
    assert!(verdict_array("] then [").is_err());
}

#[test]
fn high_confidence_corrects_creates_edge() {
    let mut s = Store::new();
    seed(&mut s, "stale", "old-belief", "agent-code cannot run on FreeBSD");
    seed(&mut s, "fresh", "correction", "agent-code DOES run on FreeBSD via linuxulator");
    let verdicts = vec![verdict(1, "corrects", 0.95, "direct negation")];
    let cands = vec![cand(&s, "stale")];
    let summary = s.apply_verdicts("fresh", &cands, &verdicts, &cfg(), false, 2000).unwrap();
    assert!(summary.contains("corrects-edge"), "{summary}");
    assert_eq!(lifecycle(&s, "stale"), "superseded");
    assert_eq!(s.get("stale").unwrap().superseded_by.as_deref(), Some("fresh"));
    let e = &s.edges[0];
    assert_eq!(e.kind, "corrects");
    assert_eq!(e.confidence, rank(0.95));
    assert_eq!(e.actor, "adjudicator");
}

#[test]
fn mid_confidence_queues_instead_of_edging() {
    let mut s = Store::new();
    seed(&mut s, "old", "maybe-stale", "x");
    seed(&mut s, "new", "maybe-correction", "y");
    let verdicts = vec![verdict(1, "updates", 0.6, "unsure")];
    let cands = vec![cand(&s, "old")];
    s.apply_verdicts("new", &cands, &verdicts, &cfg(), false, 2000).unwrap();
    assert_eq!(lifecycle(&s, "old"), "active", "mid confidence must not flip lifecycle");
    let q = s.conflicts.iter().find(|c| c.old_id == "old" && c.new_id == "new").unwrap();
    assert_eq!(q.relation, "updates");
    assert_eq!(q.status, "open");
}

#[test]
fn zombie_candidate_is_flagged_not_edged() {
    let mut s = Store::new();
    seed(&mut s, "tomb", "retired-fact", "x");
    seed(&mut s, "heir", "its-successor", "y");
    seed(&mut s, "zombie", "relearned-stale", "x again");
    s.memories[0].lifecycle = "superseded".to_string();
    s.memories[0].superseded_by = Some("heir".to_string());
    let verdicts = vec![verdict(1, "corrects", 0.99, "matches retired fact")];
    let cands = vec![cand(&s, "tomb")];
    let summary = s.apply_verdicts("zombie", &cands, &verdicts, &cfg(), false, 2000).unwrap();
    assert!(summary.contains("zombie-flag"), "{summary}");
    assert_eq!(s.edges.iter().filter(|e| e.new_id.as_deref() == Some("zombie")).count(), 0);
    assert_eq!(s.conflicts.iter().filter(|c| c.new_id == "zombie").count(), 1);
}

#[test]
fn sweep_mode_queues_updates_and_edges_corrects() {
    let mut s = Store::new();
    seed(&mut s, "hist", "dated-status", "status as of april");
    seed(&mut s, "wrong", "false-claim", "the test passed");
    seed(&mut s, "seedm", "newer", "current state + correction");
    let verdicts = vec![
        verdict(1, "updates", 0.95, "newer status"),
        verdict(2, "corrects", 0.95, "the test never passed"),
    ];
    let cands = vec![cand(&s, "hist"), cand(&s, "wrong")];
    let summary = s.apply_verdicts("seedm", &cands, &verdicts, &cfg(), true, 2000).unwrap();
    assert!(summary.contains("hist queued (updates"), "{summary}");
    assert!(summary.contains("wrong corrects-edge"), "{summary}");
    assert_eq!(
        lifecycle(&s, "hist"),
        "active",
        "updates in sweep mode must not flip lifecycle"
    );
}

#[test]
fn prose_marker_seed_match_is_case_insensitive() {
    let mut s = Store::new();
    seed(&mut s, "m-lower", "note", "this claim is obsolete since the migration");
    seed(&mut s, "m-mixed", "plan", "Superseded by the 2026 design");
    seed(&mut s, "m-name", "Corrected-path", "see the new layout");
    seed(&mut s, "m-plain", "status", "routine note, nothing corrective");
    let conn = Connection::open_in_memory().unwrap();
    conn.execute("CREATE TABLE memories (id TEXT, name TEXT, content TEXT)", ()).unwrap();
    for m in &s.memories {
        conn.execute(
            "INSERT INTO memories VALUES (?1, ?2, ?3)",
            (&m.id, &m.name, &m.content),
        )
        .unwrap();
    }
    let sql = format!("SELECT id FROM memories WHERE {} ORDER BY id", prose_marker_clause());
    let mut stmt = conn.prepare(&sql).unwrap();
    let ids: Vec<String> =
        stmt.query_map((), |r| r.get(0)).unwrap().map(|r| r.unwrap()).collect();
    assert_eq!(ids, ["m-lower", "m-mixed", "m-name"]);
    let marked: Vec<&str> =
        s.memories.iter().filter(|m| is_marked(m)).map(|m| m.id.as_str()).collect();
    assert_eq!(marked, ["m-lower", "m-mixed", "m-name"]);
}

#[test]
fn dry_run_tally_counts_would_queue_rows() {
    let mut s = Store::new();
    seed(&mut s, "hist", "dated-status", "status as of april");
    seed(&mut s, "wrong", "false-claim", "the test passed");
    let verdicts = vec![
        verdict(1, "updates", 0.6, "newer status"),
        verdict(2, "corrects", 0.95, "the test never passed"),
    ];
    let cands = vec![cand(&s, "hist"), cand(&s, "wrong")];
    let summary = format_dry_run_proposals(&cands, &verdicts, &cfg());
    assert!(summary.contains("would-queue hist (updates"), "{summary}");
    assert!(summary.contains("would-edge wrong (corrects"), "{summary}");
    assert_eq!(summary.matches(queue_label(true)).count(), 1);
    assert_eq!(summary.matches(queue_label(false)).count(), 0);
    let mut tally = SweepTally::new();
    tally.count(&summary, true);
    tally.count_error();
    assert_eq!((tally.edges, tally.queued, tally.errors), (1, 1, 1));
    assert_eq!(tally.last_line(2), "sweep done: 2 seeds, 1 edge(s), 1 queued, 1 error(s)");
}

#[test]
fn nominate_includes_superseded_rows() {
    let mut s = Store::new();
    seed(&mut s, "tomb", "freebsd-claim", "agent-code cannot run on FreeBSD ever");
    seed(&mut s, "fresh", "freebsd-truth", "agent-code runs on FreeBSD fine");
    s.memories[0].lifecycle = "superseded".to_string();
    let conn = Connection::open_in_memory().unwrap();
    conn.execute("CREATE VIRTUAL TABLE words USING fts5(id UNINDEXED, name, content)", ())
        .unwrap();
    for m in &s.memories {
        conn.execute("INSERT INTO words VALUES (?1, ?2, ?3)", (&m.id, &m.name, &m.content))
            .unwrap();
    }
    let query = fts_or_query("freebsd-truth d agent-code runs on FreeBSD fine");
    let mut stmt = conn.prepare("SELECT id FROM words WHERE words MATCH ?1 ORDER BY rank").unwrap();
    let by_words: Vec<String> =
        stmt.query_map((&query,), |r| r.get(0)).unwrap().map(|r| r.unwrap()).collect();
    let cands = s.nominate("fresh", &Vec::new(), &by_words);
    assert!(cands.iter().any(|c| c.id == "tomb"), "superseded row must be nominable");
    assert!(cands.iter().all(|c| c.id != "fresh"));
}

#[test]
fn fts_or_query_shape() {
    let q = fts_or_query("FreeBSD agent-code recall ranking");
    assert!(q.contains("\"freebsd\"") && q.contains(" OR "), "{q}");
    assert!(fts_or_query("a an it").is_empty());
}

#[test]
fn nominees_by_vector_come_best_first() {
    let ids: Vec<String> = (0..12).map(|i| format!("m{i}")).collect();
    let sims: Vec<Rank> = (0..12).map(|i| rank(i as f64 / 12.0)).collect();
    let top = most_similar(&ids, &sims);
    assert_eq!(top.len(), 10);
    assert_eq!(top[0], "m11");
}

#[test]
fn the_model_is_asked_and_read() {
    let mut s = Store::new();
    seed(&mut s, "a", "na", "ca");
    seed(&mut s, "b", "nb", "cb");
    let prompt = build_prompt(&cand(&s, "a"), &vec![cand(&s, "b")]);
    assert!(prompt.contains("1. [b] (lifecycle: active) nb — d"), "{prompt}");
    assert_eq!(chat_url("http://h/v1/"), "http://h/v1/chat/completions");
    let req = chat_request("m", "p");
    assert_eq!(req.str_at("model"), Some("m"));
    let ok = Json::parse(r#"{"choices":[{"message":{"content":"hi"}}]}"#).unwrap();
    assert_eq!(chat_answer(&ok).unwrap(), "hi");
    assert!(chat_answer(&Json::parse("{}").unwrap()).is_err());
}

#[test]
fn adjudication_needs_a_model_and_an_address() {
    let env = |pairs: &[(&str, &str)]| Settings {
        env: pairs.iter().map(|(k, v)| (k.to_string(), v.to_string())).collect(),
        config: None,
    };
    let set = [("AGENT_ADJUDICATE_MODEL", "m"), ("AGENT_ADJUDICATE_BASE_URL", "u")];
    assert_eq!(config(&env(&set)).unwrap().model, "m");
    assert!(config(&env(&set[..1])).is_none());
    let off = [set[0], set[1], ("AGENT_NO_ADJUDICATE", "1")];
    assert!(config(&env(&off)).is_none());
    let blank = [("AGENT_ADJUDICATE_MODEL", ""), set[1]];
    assert!(config(&env(&blank)).is_none());
    let mut both = env(&blank);
    both.config = Some("[adjudicate]\nmodel = \"c\"\n".to_string());
    assert_eq!(config(&both).unwrap().model, "c");
}

#[test]
fn a_sweep_skips_what_was_swept() {
    let mut s = Store::new();
    seed(&mut s, "a", "n", "obsolete");
    seed(&mut s, "b", "n", "plain");
    let args =
        SweepArgs { prose_only: false, dry_run: false, limit: None, force: false };
    let seeds = s.sweep_seeds(&args.opts(), &vec!["a".to_string()]);
    assert_eq!(seeds, vec!["b"]);
    let marked = SweepArgs { prose_only: true, dry_run: false, limit: None, force: true };
    assert_eq!(s.sweep_seeds(&marked.opts(), &vec!["a".to_string()]), vec!["a"]);
    assert!(sweep_first_line(0, &args.opts()).contains("nothing to do"));
}
