use agent_store::context::{
    context_limits, context_signals, has_identity_tag, parse_tier, pick_context, rank_scored, Tier,
    FEEDBACK_LIMIT, USER_LIMIT,
};
use agent_store::edit::{
    content_source, parse_frontmatter, resolve_content, AddArgs, ContentSource, UpdateArgs,
};
use agent_store::history::{ConflictsArgs, DiffArgs, DiffError, EventsArgs, Printed};
use agent_store::json::Json;
use agent_store::kernel::{
    context_stats, kernel_injection_stats, ContextLogRow, ContextStatsArgs,
};
use agent_store::migrate::{file_id, migrate_dir, migrate_last_line, Import, MigrateArgs};
use agent_store::plan::{
    check_plan, print_apply_candidate, takes_stdin, ApplyCandidate, ApplyPlanArgs,
};
use agent_store::ranking::{
    conflict_partners, rank_hits, rank_t_eff, rank_tie_break, Scored, RANK_FRESH_FLOOR_PERCENT,
    RANK_TRUST_BOOST_PERCENT,
};
use agent_store::render::{
    memory_trust_label, trust_label, ListArgs, RecentArgs, ShowArgs, Shown,
};
use agent_store::resolve::{Resolution, ResolveArgs, RESOLVE_MAX_DEPTH};
use agent_store::rows::Memory;
use agent_store::settings::Settings;
use agent_store::sql::{ScopeFilter, TypeFilter};
use agent_store::store::{LifecycleArgs, Rank, Store, ONE_KEY};
use agent_store::supersede::{CorrectArgs, RetractArgs, VerifyArgs};
use agent_store::tokens::{fts5_match_query, signals_from_cwd, tokenize, weigh_terms};

const DAY: i64 = 86_400;

fn rank(x: f64) -> Rank {
    let b = x.to_bits() as i64;
    Rank { key: if b >= 0 { b } else { i64::MIN - b } }
}

fn bare() -> Settings {
    Settings { env: Vec::new(), config: None }
}

fn row(id: &str, type_: &str, name: &str, content: &str, tags: &str, author: &str) -> Memory {
    Memory {
        id: id.to_string(),
        type_: type_.to_string(),
        name: name.to_string(),
        description: "d".to_string(),
        content: content.to_string(),
        source: "curated".to_string(),
        tags: tags.to_string(),
        cwd: String::new(),
        scope: "shared".to_string(),
        is_active: true,
        lifecycle: "active".to_string(),
        created_at: 1000,
        updated_at: 1000,
        archived_at: None,
        trashed_at: None,
        purge_after: None,
        superseded_by: None,
        supersede_reason: None,
        verified_at: None,
        source_ref: None,
        author: author.to_string(),
        valid_from: None,
        valid_to: None,
    }
}

fn seed(s: &mut Store, id: &str, name: &str, content: &str) {
    s.memories.push(row(id, "project", name, content, "", "test-witness"));
}

fn seed_typed(s: &mut Store, id: &str, type_: &str, name: &str, tags: &str) {
    s.memories.push(row(id, type_, name, "content", tags, "witness"));
}

fn correct(s: &mut Store, old: &str, new: &str, kind: &str, reason: &str) -> Result<(), String> {
    s.correct(
        &CorrectArgs {
            old: old.to_string(),
            with_id: new.to_string(),
            kind: kind.to_string(),
            reason: reason.to_string(),
        },
        "test",
        2000,
    )
}

fn retract(s: &mut Store, id: &str, reason: &str) -> Result<(), String> {
    s.retract(&RetractArgs { id: id.to_string(), reason: reason.to_string() }, "test", 2000)
}

fn set_lifecycle(
    s: &mut Store,
    id: &str,
    reason: &str,
    lifecycle: &str,
) -> Result<String, String> {
    s.set_lifecycle(
        &LifecycleArgs {
            id: id.to_string(),
            reason: reason.to_string(),
            source_report: String::new(),
        },
        lifecycle,
        3000,
    )
}

fn link(s: &mut Store, old: &str, new: &str) {
    s.apply_supersession(old, new, "corrects", "", Rank { key: ONE_KEY }, "test", 2000).unwrap();
}

fn ids(s: &Store, at: &[usize]) -> Vec<String> {
    at.iter().map(|i| s.memories[*i].id.clone()).collect()
}

fn cosine(a: &[f64], b: &[f64]) -> f64 {
    let dot: f64 = a.iter().zip(b).map(|(x, y)| x * y).sum();
    let na: f64 = a.iter().map(|x| x * x).sum::<f64>().sqrt();
    let nb: f64 = b.iter().map(|x| x * x).sum::<f64>().sqrt();
    dot / (na * nb)
}

fn close_table(vs: &[Vec<f64>]) -> Vec<Vec<bool>> {
    vs.iter().map(|a| vs.iter().map(|b| cosine(a, b) > 0.85).collect()).collect()
}

fn tie_table(scores: &[f64]) -> Vec<Vec<bool>> {
    scores
        .iter()
        .map(|a| scores.iter().map(|b| *a > 0.0 && (a - b) / a <= 0.10).collect())
        .collect()
}

#[test]
fn t_eff_takes_verification_as_renewal() {
    assert_eq!(rank_t_eff(100, 200, None), 200);
    assert_eq!(rank_t_eff(100, 200, Some(900)), 900);
    assert_eq!(rank_t_eff(100, 500, Some(300)), 500);
}

#[test]
fn non_semantic_spread_is_bounded_below_1_5() {
    let boost = RANK_TRUST_BOOST_PERCENT as f64 / 100.0;
    let floor = RANK_FRESH_FLOOR_PERCENT as f64 / 100.0;
    assert_eq!(boost, 0.25);
    assert_eq!(floor, 0.85);
    let spread = (1.0 + boost) / floor;
    assert!(spread < 1.5, "trust×fresh spread {spread} can flip a 0.9-vs-0.6 cosine gap");
}

#[test]
fn tie_break_prefers_newer_among_same_topic_ties() {
    let now = 1_000_000 * DAY;
    let order = rank_tie_break(
        &tie_table(&[0.80, 0.745]),
        &close_table(&[vec![1.0, 0.0], vec![1.0, 0.0]]),
        &vec![now - 100 * DAY, now],
    );
    assert_eq!(order, vec![1, 0]);
}

#[test]
fn tie_break_never_touches_distinct_topics_or_decisive_gaps() {
    let now = 1_000_000 * DAY;
    let topical = rank_tie_break(
        &tie_table(&[0.80, 0.72]),
        &close_table(&[vec![1.0, 0.0], vec![0.0, 1.0]]),
        &vec![now - 100 * DAY, now],
    );
    assert_eq!(topical[0], 0);
    let decisive = rank_tie_break(
        &tie_table(&[0.90, 0.60]),
        &close_table(&[vec![1.0, 0.0], vec![1.0, 0.0]]),
        &vec![now - 100 * DAY, now],
    );
    assert_eq!(decisive[0], 0);
}

#[test]
fn hits_are_ordered_and_cut_at_the_floor() {
    let scores = vec![rank(0.2), rank(0.9), rank(0.5)];
    assert_eq!(rank_hits(&scores, None, 2), vec![1, 2]);
    assert_eq!(rank_hits(&scores, Some(rank(0.5)), 9), vec![1, 2]);
    assert_eq!(rank_hits(&scores, Some(rank(0.95)), 9), Vec::<usize>::new());
    assert_eq!(rank_scored(&scores, 1), vec![1]);
}

fn generic() -> TypeFilter {
    TypeFilter::ExcludeKx(None)
}

fn scored(s: &Store, id: &str, c: f64) -> Scored {
    Scored { at: s.find(id).unwrap(), cosine: rank(c), via: None }
}

#[test]
fn credit_heads_credits_member_match_to_in_set_head() {
    let mut s = Store::new();
    seed(&mut s, "stale", "old", "x");
    seed(&mut s, "head", "new", "y");
    link(&mut s, "stale", "head");
    let out = s.credit_heads(&vec![scored(&s, "stale", 0.9), scored(&s, "head", 0.6)], &generic(), &ScopeFilter::All);
    assert_eq!(out.len(), 1);
    assert_eq!(s.memories[out[0].at].id, "head");
    assert_eq!(out[0].cosine, rank(0.9), "member match must be credited");
    assert!(out[0].via.as_deref().unwrap().starts_with("stale"));
}

#[test]
fn credit_heads_loads_unnominated_terminal_head_across_chain() {
    let mut s = Store::new();
    for id in ["a", "b", "c"] {
        seed(&mut s, id, id, "x");
    }
    link(&mut s, "a", "b");
    link(&mut s, "b", "c");
    let out = s.credit_heads(&vec![scored(&s, "a", 0.88)], &generic(), &ScopeFilter::All);
    assert_eq!(out.len(), 1);
    assert_eq!(s.memories[out[0].at].id, "c", "must resolve to the TERMINAL head");
    assert_eq!(out[0].cosine, rank(0.88));
    assert!(out[0].via.is_some());
}

#[test]
fn credit_heads_drops_cyclic_and_inactive_chains_without_failing() {
    let mut s = Store::new();
    seed(&mut s, "x1", "x1", "a");
    seed(&mut s, "y1", "y1", "b");
    s.memories[0].lifecycle = "superseded".to_string();
    s.memories[0].superseded_by = Some("y1".to_string());
    s.memories[1].lifecycle = "superseded".to_string();
    s.memories[1].superseded_by = Some("x1".to_string());
    seed(&mut s, "m1", "m1", "c");
    seed(&mut s, "gone", "gone", "d");
    link(&mut s, "m1", "gone");
    retract(&mut s, "gone", "test").unwrap();
    let out = s.credit_heads(&vec![scored(&s, "x1", 0.9), scored(&s, "m1", 0.8)], &generic(), &ScopeFilter::All);
    assert!(out.is_empty(), "cyclic + retracted-head chains must drop, not fail");
}

#[test]
fn conflict_partners_flags_same_topic_pairs_symmetrically() {
    let ids = vec!["a".to_string(), "b".to_string(), "c".to_string()];
    let close = close_table(&[
        vec![1.0, 0.0, 0.05],
        vec![0.0, 1.0, 0.0],
        vec![1.0, 0.0, 0.0],
    ]);
    let partners = conflict_partners(&ids, &close);
    assert_eq!(partners[0], vec!["c".to_string()]);
    assert!(partners[1].is_empty(), "orthogonal result must not be flagged");
    assert_eq!(partners[2], vec!["a".to_string()]);
}

#[test]
fn conflict_partners_empty_for_distinct_results() {
    let ids = vec!["a".to_string(), "b".to_string()];
    let close = close_table(&[vec![1.0, 0.0], vec![0.0, 1.0]]);
    assert!(conflict_partners(&ids, &close).iter().all(Vec::is_empty));
}

#[test]
fn resolve_current_walks_chains_and_stops_at_heads() {
    let mut s = Store::new();
    for id in ["a", "b", "c"] {
        seed(&mut s, id, id, "x");
    }
    for (old, new) in [("a", "b"), ("b", "c")] {
        correct(&mut s, old, new, "corrects", "").unwrap();
    }
    assert_eq!(s.resolve_current("a").unwrap(), vec!["b", "c"]);
    assert_eq!(s.resolve_current("b").unwrap(), vec!["c"]);
    assert!(s.resolve_current("c").unwrap().is_empty());
    assert!(s.resolve_current("nope").unwrap().is_empty());
}

#[test]
fn resolve_current_errors_loudly_on_cycles() {
    let mut s = Store::new();
    seed(&mut s, "x", "x", "1");
    seed(&mut s, "y", "y", "2");
    s.memories[0].superseded_by = Some("y".to_string());
    s.memories[1].superseded_by = Some("x".to_string());
    let err = s.resolve_current("x").unwrap_err();
    assert!(err.contains("CYCLE"), "{err}");
}

#[test]
fn resolve_current_caps_pathological_depth() {
    let mut s = Store::new();
    let n = RESOLVE_MAX_DEPTH + 3;
    for i in 0..=n {
        seed(&mut s, &format!("m{i}"), &format!("m{i}"), "x");
    }
    for i in 0..n {
        s.memories[i].superseded_by = Some(format!("m{}", i + 1));
    }
    let err = s.resolve_current("m0").unwrap_err();
    assert!(err.contains("exceeds"), "{err}");
}

#[test]
fn resolving_shows_the_chain() {
    let mut s = Store::new();
    for id in ["a", "b"] {
        seed(&mut s, id, id, "x");
    }
    correct(&mut s, "a", "b", "updates", "moved").unwrap();
    match s.resolve(&ResolveArgs { key: "a".to_string(), json: false }).unwrap() {
        Resolution::Lines(ls) => assert!(ls.iter().any(|l| l.contains("b")), "{ls:?}"),
        Resolution::Json(_) => panic!("text was asked for"),
    }
    match s.resolve(&ResolveArgs { key: "a".to_string(), json: true }).unwrap() {
        Resolution::Json(j) => assert!(j.text().contains("\"updates\""), "{}", j.text()),
        Resolution::Lines(_) => panic!("JSON was asked for"),
    }
    assert!(s.resolve(&ResolveArgs { key: "nope".to_string(), json: false }).is_err());
}

fn queue_pair(s: &mut Store, old: &str, new: &str) -> i64 {
    s.queue_conflict(old, new, "corrects", rank(0.6), "test", 1000);
    s.conflicts.last().unwrap().id
}

fn queue_status(s: &Store, id: i64) -> String {
    s.conflicts.iter().find(|c| c.id == id).unwrap().status.clone()
}

#[test]
fn correct_resolves_matching_queue_rows_both_orientations() {
    let mut s = Store::new();
    seed(&mut s, "o1", "old1", "x");
    seed(&mut s, "n1", "new1", "y");
    seed(&mut s, "o2", "old2", "x");
    seed(&mut s, "n2", "new2", "y");
    let q1 = queue_pair(&mut s, "o1", "n1");
    let q2 = queue_pair(&mut s, "n2", "o2");
    correct(&mut s, "o1", "n1", "corrects", "").unwrap();
    correct(&mut s, "o2", "n2", "corrects", "").unwrap();
    assert_eq!(queue_status(&s, q1), "resolved");
    assert_eq!(queue_status(&s, q2), "resolved", "reverse orientation must resolve too");
}

#[test]
fn retract_resolves_queue_rows_touching_the_id() {
    let mut s = Store::new();
    seed(&mut s, "r1", "doomed", "x");
    seed(&mut s, "other", "bystander", "y");
    let q = queue_pair(&mut s, "r1", "other");
    retract(&mut s, "r1", "gone").unwrap();
    assert_eq!(queue_status(&s, q), "resolved");
}

#[test]
fn dismiss_marks_row_and_requires_open() {
    let mut s = Store::new();
    seed(&mut s, "a1", "a", "x");
    seed(&mut s, "b1", "b", "y");
    let q = queue_pair(&mut s, "a1", "b1");
    s.dismiss_conflict(q, "false positive", "test", 2000).unwrap();
    assert_eq!(queue_status(&s, q), "dismissed");
    assert!(s.dismiss_conflict(q, "", "test", 2000).is_err());
}

#[test]
fn the_conflict_queue_is_listed() {
    let mut s = Store::new();
    seed(&mut s, "a1", "a", "x");
    seed(&mut s, "b1", "b", "y");
    queue_pair(&mut s, "a1", "b1");
    let args = ConflictsArgs { dismiss: None, reason: String::new(), all: false, json: true };
    let conf = vec![Json::parse("0.6").unwrap()];
    match s.list_conflicts(&args, &conf, &vec!["0.60".to_string()]) {
        Printed::Json(j) => assert!(j.text().contains("a1"), "{}", j.text()),
        Printed::Lines(_) => panic!("JSON was asked for"),
    }
}

#[test]
fn hyphenated_term_becomes_a_phrase() {
    assert_eq!(
        fts5_match_query("mu-slat orchestration"),
        r#""mu-slat" "orchestration""#
    );
}

#[test]
fn metacharacters_are_neutralized() {
    assert_eq!(fts5_match_query("foo:bar"), r#""foo:bar""#);
    assert_eq!(fts5_match_query("a* (b) OR c"), r#""a*" "(b)" "OR" "c""#);
}

#[test]
fn embedded_quotes_are_doubled() {
    assert_eq!(fts5_match_query(r#"say"hi"#), r#""say""hi""#);
}

#[test]
fn punctuation_only_tokens_are_dropped() {
    assert_eq!(fts5_match_query("foo - bar"), r#""foo" "bar""#);
    assert_eq!(fts5_match_query("   "), "");
    assert_eq!(fts5_match_query("-:*"), "");
}

#[test]
fn terms_are_lower_case_words_that_say_something() {
    assert_eq!(tokenize("The Rust toolchain, and ÄPFEL"), vec!["rust", "toolchain", "äpfel"]);
    assert_eq!(signals_from_cwd("/home/me/projects/agent-tools"), vec!["agent", "tools", "projects"]);
    assert_eq!(signals_from_cwd("/home/x/src/pi-agent-poc"), vec!["pi", "agent", "poc", "src"]);
    assert_eq!(signals_from_cwd("/home/x/src/"), vec!["src"]);
    assert!(tokenize("src home").is_empty());
    let placed = weigh_terms("", "", "", "src", "/w/src");
    assert_eq!(placed, vec![("src".to_string(), 4)]);
    let ws = weigh_terms("rust", "rust", "rust", "rust", "");
    assert_eq!(ws, vec![("rust".to_string(), 15)]);
}

fn kernel_ids(s: &Store) -> Vec<String> {
    let (user, feedback) = s.identity_kernel(&ScopeFilter::All);
    let mut out = ids(s, &user);
    out.extend(ids(s, &feedback));
    out
}

#[test]
fn kernel_promote_demote_round_trip_drives_selection_and_audits() {
    let mut s = Store::new();
    seed_typed(&mut s, "fb1", "feedback", "no-trailing-summaries", "tone");
    assert!(kernel_ids(&s).is_empty(), "untagged row is not kernel");
    s.kernel_set_membership("fb1", true, "operator blessed", 2000).unwrap();
    assert_eq!(kernel_ids(&s), vec!["fb1".to_string()]);
    s.kernel_set_membership("fb1", false, "not load-bearing", 2001).unwrap();
    assert!(kernel_ids(&s).is_empty());
    assert_eq!(s.memories[0].lifecycle, "active", "demote must not touch lifecycle");
    assert_eq!(s.memories[0].tags, "tone", "only the identity tag is removed");
    let events: Vec<(String, String)> = s
        .events
        .iter()
        .filter(|e| e.memory_id == "fb1")
        .map(|e| (e.action.clone(), e.reason.clone()))
        .collect();
    assert_eq!(
        events,
        vec![
            ("promote".to_string(), "operator blessed".to_string()),
            ("demote".to_string(), "not load-bearing".to_string()),
        ]
    );
}

#[test]
fn kernel_membership_noop_logs_no_event() {
    let mut s = Store::new();
    seed_typed(&mut s, "fb1", "feedback", "rule", "");
    s.kernel_set_membership("fb1", false, "noop", 2000).unwrap();
    assert_eq!(s.events.len(), 0, "no-op must not write a ledger entry");
    assert!(s.kernel_set_membership("ghost", true, "x", 2000).is_err());
}

fn log_row(created_at: i64, signals: &str, returned: &str) -> ContextLogRow {
    ContextLogRow {
        id: created_at,
        created_at,
        cwd: String::new(),
        signals: signals.to_string(),
        n_scored: 0,
        returned: returned.to_string(),
    }
}

#[test]
fn kernel_injection_stats_count_identity_tier_rows() {
    let injected = "[{\"id\":\"fb1\",\"name\":\"rule\",\"score\":0.0}]";
    let log = vec![
        log_row(2000, "tier:identity", injected),
        log_row(3000, "tier:identity", injected),
        log_row(4000, "project rust", "[{\"id\":\"fb1\",\"name\":\"rule\",\"score\":0.9}]"),
    ];
    assert_eq!(kernel_injection_stats(&log, "fb1"), (2, 3000));
    let shown = context_stats(&log, &ContextStatsArgs { n: 1 });
    assert!(shown.iter().any(|l| l.contains("0.90  rule")), "{shown:?}");
}

#[test]
fn context_identity_logs_injected_ids() {
    let mut s = Store::new();
    seed_typed(&mut s, "u1", "user", "who-thaddeus-is", "identity");
    seed_typed(&mut s, "fb1", "feedback", "no-trailing-summaries", "identity,tone");
    let (user, feedback) = s.identity_kernel(&ScopeFilter::All);
    let call = s.kernel_call(&user, &feedback, &Json::parse("0.0").unwrap()).unwrap();
    assert_eq!(call.signals, "tier:identity");
    assert_eq!(call.n_scored, 0);
    let returned = call.returned;
    assert!(s.kernel_call(&vec![], &vec![], &Json::Null).is_none());
    assert!(returned.contains("\"u1\""), "user row id must be logged");
    assert!(returned.contains("\"fb1\""), "rule row id must be logged");
    let log = vec![log_row(2000, "tier:identity", &returned)];
    assert_eq!(kernel_injection_stats(&log, "u1").0, 1);
    assert_eq!(kernel_injection_stats(&log, "fb1").0, 1);
    assert!(s.kernel_verbose(&user, &feedback).contains("1 user + 1 feedback"));
}

#[test]
fn correct_supersedes_and_audits() {
    let mut s = Store::new();
    seed(&mut s, "old1", "stale-fact", "we run rust inside the jail");
    seed(&mut s, "new1", "fresh-fact", "rust always ran on the host");
    correct(&mut s, "old1", "new1", "corrects", "operator correction").unwrap();
    let m = s.get("old1").unwrap();
    assert_eq!(m.lifecycle, "superseded");
    assert_eq!(m.superseded_by.as_deref(), Some("new1"));
    assert_eq!(m.supersede_reason.as_deref(), Some("operator correction"));
    assert_eq!(m.valid_to, None);
    let n = s.events.iter().filter(|e| e.memory_id == "old1" && e.action == "supersede").count();
    assert_eq!(n, 1);
    let e = s
        .edges
        .iter()
        .find(|e| e.old_id == "old1" && e.new_id.as_deref() == Some("new1"))
        .unwrap();
    assert_eq!(e.kind, "corrects");
    assert_eq!(e.confidence, rank(1.0));
    correct(&mut s, "old1", "new1", "corrects", "again").unwrap();
    let edges = s
        .edges
        .iter()
        .filter(|e| e.old_id == "old1" && e.new_id.as_deref() == Some("new1"))
        .count();
    assert_eq!(edges, 1);
}

#[test]
fn correct_kind_updates_closes_validity_interval() {
    let mut s = Store::new();
    seed(&mut s, "was-true", "old-state", "user lives in NYC");
    seed(&mut s, "now-true", "new-state", "user lives in SF");
    correct(&mut s, "was-true", "now-true", "updates", "moved").unwrap();
    assert!(
        s.get("was-true").unwrap().valid_to.is_some(),
        "'updates' must close the old validity interval"
    );
}

#[test]
fn retract_hides_edges_and_round_trips_through_restore() {
    let mut s = Store::new();
    seed(&mut s, "r1", "doomed-fact", "this stopped being true");
    assert!(retract(&mut s, "r1", "  ").is_err());
    retract(&mut s, "r1", "no longer true, no successor").unwrap();
    let m = s.get("r1").unwrap();
    assert_eq!(m.lifecycle, "retracted");
    assert!(!m.is_active);
    let e = s.edges.iter().find(|e| e.old_id == "r1").unwrap();
    assert_eq!(e.kind, "retracts");
    assert_eq!(e.new_id, None);
    set_lifecycle(&mut s, "r1", "restoring for re-retract test", "active").unwrap();
    retract(&mut s, "r1", "retracted again after restore").unwrap();
    let n = s.edges.iter().filter(|e| e.old_id == "r1" && e.new_id.is_none()).count();
    assert_eq!(n, 2);
}

#[test]
fn restore_clears_supersession_fields_but_keeps_edge_history() {
    let mut s = Store::new();
    seed(&mut s, "g1", "flagged-fact", "superseded then reversed");
    seed(&mut s, "g2", "flagger", "the (wrong) successor");
    s.apply_supersession("g1", "g2", "updates", "sweep flag", rank(0.9), "adjudicator", 2000)
        .unwrap();
    set_lifecycle(&mut s, "g1", "sweep edge reversed by operator", "active").unwrap();
    let m = s.get("g1").unwrap();
    assert_eq!(m.lifecycle, "active");
    assert_eq!(m.superseded_by, None, "restore must clear the stale successor FK");
    assert_eq!(m.supersede_reason, None, "restore must clear the stale supersede reason");
    let n = s
        .edges
        .iter()
        .filter(|e| e.old_id == "g1" && e.new_id.as_deref() == Some("g2"))
        .count();
    assert_eq!(n, 1);
}

#[test]
fn correct_rejects_self_and_missing_successor() {
    let mut s = Store::new();
    seed(&mut s, "a", "a", "x");
    assert!(correct(&mut s, "a", "a", "corrects", "").is_err());
    assert!(correct(&mut s, "a", "ghost", "corrects", "").is_err());
    assert!(correct(&mut s, "a", "ghost", "bogus", "").is_err());
}

#[test]
fn verify_stamps_verified_at() {
    let mut s = Store::new();
    seed(&mut s, "v1x", "fact", "checkable claim");
    let args = VerifyArgs { id: "v1x".to_string(), note: "terrain-checked".to_string() };
    s.verify(&args, 5000).unwrap();
    assert_eq!(s.get("v1x").unwrap().verified_at, Some(5000));
    assert_eq!(s.get("v1x").unwrap().updated_at, 5000);
    let ghost = VerifyArgs { id: "ghost".to_string(), note: String::new() };
    assert!(s.verify(&ghost, 5000).is_err());
}

#[test]
fn trust_label_reads_as_testimony() {
    let l = trust_label(1_700_000_000, None, "active", &None, "");
    assert!(l.contains("recorded"), "{l}");
    assert!(l.contains("never verified"), "{l}");
    let l = trust_label(
        1_700_000_000,
        Some(1_750_000_000),
        "superseded",
        &Some("xyz".to_string()),
        "c137",
    );
    assert!(l.contains("verified"), "{l}");
    assert!(l.contains("by c137"), "{l}");
    assert!(l.contains("SUPERSEDED by xyz"), "{l}");
    let l = trust_label(1_700_000_000, None, "orphaned", &None, "");
    assert!(l.contains("ORPHANED"), "{l}");
    assert!(l.contains("2023-11-14"), "{l}");
}

#[test]
fn superseded_excluded_from_topic_index() {
    let mut s = Store::new();
    seed(&mut s, "o2", "jail-belief", "rust runs in jails definitely");
    seed(&mut s, "n2", "host-truth", "rust runs on the host");
    assert_eq!(s.rebuild_full_index(), 2);
    let before = s.topics.iter().filter(|t| t.memory_id == "o2").count();
    assert!(before > 0, "seed should be indexed while active");
    correct(&mut s, "o2", "n2", "corrects", "").unwrap();
    let after = s.topics.iter().filter(|t| t.memory_id == "o2").count();
    assert_eq!(after, 0, "superseded memory must leave the context index");
}

#[test]
fn context_queries_exclude_superseded() {
    let mut s = Store::new();
    seed(&mut s, "p1", "stale-build", "the jail builds rust toolchains");
    seed(&mut s, "p2", "fresh-build", "the host builds rust toolchains");
    s.rebuild_full_index();
    correct(&mut s, "p1", "p2", "corrects", "").unwrap();
    let by_type = ids(&s, &s.query_by_type("project", 50, &ScopeFilter::All));
    assert!(by_type.contains(&"p2".to_string()));
    assert!(
        !by_type.contains(&"p1".to_string()),
        "superseded memory leaked into query_by_type"
    );
    let terms = vec!["rust".to_string(), "toolchains".to_string()];
    let (at, weights) = s.topic_matches(&terms, "project", 10, &ScopeFilter::All);
    assert_eq!(at.len(), weights.len());
    let found = ids(&s, &at);
    assert!(found.contains(&"p2".to_string()));
    assert!(
        !found.contains(&"p1".to_string()),
        "superseded memory leaked into the topic matches"
    );
}

#[test]
fn injected_memories_carry_testimony_fields() {
    let mut s = Store::new();
    seed(&mut s, "t1", "fact", "labeled claim");
    let at = s.query_by_type("project", 10, &ScopeFilter::All);
    let m = &s.memories[at[0]];
    assert_eq!(m.author, "test-witness");
    assert!(m.verified_at.is_none());
    let label = memory_trust_label(m);
    assert!(label.contains("recorded"), "{label}");
    assert!(label.contains("never verified"), "{label}");
    assert!(label.contains("by test-witness"), "{label}");
    let args = VerifyArgs { id: "t1".to_string(), note: "terrain-checked".to_string() };
    s.verify(&args, 5000).unwrap();
    let m = s.get("t1").unwrap();
    assert!(m.verified_at.is_some());
    let label = memory_trust_label(m);
    assert!(!label.contains("never verified"), "{label}");
    assert!(label.contains("verified"), "{label}");
}

#[test]
fn identity_kernel_selects_user_plus_tagged_feedback_only() {
    let mut s = Store::new();
    seed_typed(&mut s, "u1", "user", "identity-kernel-bio", "identity");
    seed_typed(&mut s, "u2", "user", "war-story-not-kernel", "origin-story");
    seed_typed(&mut s, "f1", "feedback", "no-sycophancy", "identity,calibration");
    seed_typed(&mut s, "f2", "feedback", "task-detail-rule", "jj,workflow");
    seed_typed(&mut s, "p1", "project", "some-project-fact", "identity");
    let (user, feedback) = s.identity_kernel(&ScopeFilter::All);
    assert_eq!(ids(&s, &user), vec!["u1"]);
    assert_eq!(ids(&s, &feedback), vec!["f1"]);
    let lines = s.print_kernel(&user, &feedback);
    assert_eq!(lines[0], "## Identity Kernel\n");
}

#[test]
fn identity_tag_match_is_exact_not_substring() {
    let mut s = Store::new();
    seed_typed(&mut s, "f3", "feedback", "near-miss", "identity-adjacent,other");
    seed_typed(&mut s, "f4", "feedback", "padded", " identity ,x");
    let (_, feedback) = s.identity_kernel(&ScopeFilter::All);
    assert_eq!(
        ids(&s, &feedback),
        vec!["f4"],
        "'identity-adjacent' must not match; whitespace-padded tag must"
    );
    assert!(has_identity_tag(&s.memories[1]));
}

#[test]
fn identity_kernel_excludes_superseded() {
    let mut s = Store::new();
    seed_typed(&mut s, "f5", "feedback", "stale-identity-rule", "identity");
    seed_typed(&mut s, "f6", "feedback", "fresh-identity-rule", "identity");
    correct(&mut s, "f5", "f6", "corrects", "").unwrap();
    let (_, feedback) = s.identity_kernel(&ScopeFilter::All);
    assert_eq!(
        ids(&s, &feedback),
        vec!["f6"],
        "superseded identity rule must leave the kernel"
    );
}

#[test]
fn resolve_content_rejects_blank_provided_bodies() {
    assert!(resolve_content(&Some(String::new())).is_err());
    assert!(resolve_content(&Some("  \n\t".to_string())).is_err());
    assert!(matches!(resolve_content(&None), Ok(None)));
    assert_eq!(resolve_content(&Some("x".to_string())).unwrap().as_deref(), Some("x"));
}

#[test]
fn a_body_comes_from_file_then_stdin_then_inline() {
    let some = |s: &str| Some(s.to_string());
    assert!(matches!(content_source(&some("-"), &some("f")), ContentSource::File(_)));
    assert!(matches!(content_source(&some("-"), &None), ContentSource::Stdin));
    assert!(matches!(content_source(&some("x"), &None), ContentSource::Inline(_)));
    assert!(matches!(content_source(&None, &None), ContentSource::Absent));
}

fn add_args(type_: &str) -> AddArgs {
    AddArgs {
        type_: type_.to_string(),
        name: "n".to_string(),
        description: "d".to_string(),
        content: None,
        content_file: None,
        tags: String::new(),
        cwd: String::new(),
        source: "test".to_string(),
        scope: None,
        source_ref: None,
        author: None,
        no_adjudicate: true,
    }
}

#[test]
fn add_rejects_blank_content_instead_of_inserting() {
    let mut s = Store::new();
    let err = s
        .add(&add_args("project"), &Some("   ".to_string()), "id1", 1000, &bare())
        .unwrap_err();
    assert!(err.contains("empty/whitespace-only"), "{err}");
    assert_eq!(s.memories.len(), 0, "no blank memory row may be inserted");
}

#[test]
fn add_stores_indexes_and_logs() {
    let mut s = Store::new();
    let body = Some("rust toolchains".to_string());
    s.add(&add_args("project"), &body, "id1", 1000, &bare()).unwrap();
    assert_eq!(s.get("id1").unwrap().content, "rust toolchains");
    assert_eq!(s.get("id1").unwrap().scope, "shared");
    assert!(s.topics.iter().any(|t| t.term == "toolchains"));
    assert_eq!(s.events[0].action, "add");
    assert!(s.events[0].before_json.is_none());
    assert!(s.add(&add_args("bogus"), &body, "id2", 1000, &bare()).is_err());
    assert!(s.add(&add_args("user"), &None, "id2", 1000, &bare()).is_err());
    assert!(s.is_wf());
}

fn update_args(id: &str) -> UpdateArgs {
    UpdateArgs {
        id: id.to_string(),
        name: None,
        description: None,
        content: None,
        content_file: None,
        tags: None,
        active: None,
        scope: None,
    }
}

#[test]
fn update_rejects_blank_content_and_leaves_row_untouched() {
    let mut s = Store::new();
    seed(&mut s, "m1", "keep", "original body");
    assert!(s.update(&update_args("m1"), &Some(String::new()), 2000).is_err());
    assert_eq!(s.get("m1").unwrap().content, "original body");
    assert!(s.update(&update_args("ghost"), &Some("x".to_string()), 2000).is_err());
}

#[test]
fn update_changes_what_is_given() {
    let mut s = Store::new();
    seed(&mut s, "m1", "keep", "original body");
    let mut args = update_args("m1");
    args.tags = Some("a,b".to_string());
    s.update(&args, &None, 2000).unwrap();
    let m = s.get("m1").unwrap();
    assert_eq!(m.tags, "a,b");
    assert_eq!(m.content, "original body");
    assert_eq!(m.updated_at, 2000);
    match s.diff(&DiffArgs { id: "m1".to_string(), event: None, json: true }) {
        Ok(Printed::Json(j)) => {
            let t = j.text();
            assert!(t.contains("\"tags\"") && t.contains("a,b"), "{t}");
        }
        _ => panic!("no diff"),
    }
    assert!(matches!(
        s.diff(&DiffArgs { id: "ghost".to_string(), event: None, json: true }),
        Err(DiffError::NoEvent)
    ));
    match s.list_events(&EventsArgs { id: "m1".to_string(), limit: 5, json: false }) {
        Printed::Lines(ls) => assert!(ls.iter().any(|l| l.contains("update")), "{ls:?}"),
        Printed::Json(_) => panic!("text was asked for"),
    }
    match s.patch_log(&EventsArgs { id: "m1".to_string(), limit: 5, json: false }) {
        Printed::Lines(ls) => assert!(!ls.is_empty()),
        Printed::Json(_) => panic!("text was asked for"),
    }
}

#[test]
fn archive_and_restore_round_trip() {
    let mut s = Store::new();
    seed(&mut s, "m1", "keep", "body");
    assert_eq!(set_lifecycle(&mut s, "m1", "tidy", "archived").unwrap(), "archive: m1");
    assert!(!s.get("m1").unwrap().is_active);
    assert_eq!(s.get("m1").unwrap().archived_at, Some(3000));
    assert_eq!(set_lifecycle(&mut s, "m1", "needed", "active").unwrap(), "restore: m1");
    let m = s.get("m1").unwrap();
    assert!(m.is_active);
    assert_eq!(m.lifecycle, "active");
    assert_eq!(m.archived_at, None);
    assert_eq!(set_lifecycle(&mut s, "m1", "junk", "trashed").unwrap(), "trash: m1");
    assert_eq!(s.get("m1").unwrap().trashed_at, Some(3000));
    assert_eq!(
        set_lifecycle(&mut s, "m1", "x", "bogus").unwrap_err(),
        "invalid lifecycle: bogus"
    );
    assert!(set_lifecycle(&mut s, "ghost", "x", "archived").is_err());
}

#[test]
fn reading_shows_the_fact_in_force() {
    let mut s = Store::new();
    seed(&mut s, "a", "old-name", "stale body");
    seed(&mut s, "b", "new-name", "fresh body");
    correct(&mut s, "a", "b", "corrects", "wrong").unwrap();
    let out = s.print_search(&vec![0]);
    let shown = out.lines.join("\n");
    let fresh = shown.find("fresh body").unwrap();
    let stub = shown.find("[a]").unwrap();
    assert!(fresh < stub, "the successor comes first: {shown}");
    assert!(!shown.contains("stale body"));
    match s.show(&ShowArgs { key: "b".to_string(), inactive: false, json: true }) {
        Shown::Json(j) => assert_eq!(j.str_at("content"), Some("fresh body")),
        _ => panic!("JSON was asked for"),
    }
    assert!(matches!(
        s.show(&ShowArgs { key: "ghost".to_string(), inactive: false, json: true }),
        Shown::Missing(_)
    ));
    let recent = s.recent(&RecentArgs { n: 5, type_: None });
    assert!(recent.iter().any(|l| l.contains("new-name")), "{recent:?}");
    let args = ListArgs { type_: None, tag: None, cwd: None, lifecycle: None, limit: 5 };
    assert!(!s.list(&args).unwrap().is_empty());
    let bogus = ListArgs {
        type_: None,
        tag: None,
        cwd: None,
        lifecycle: Some("bogus".to_string()),
        limit: 5,
    };
    assert!(s.list(&bogus).is_err());
    let out = s.export();
    assert!(out.iter().any(|l| l.contains("fresh body")));
}

#[test]
fn sessions_are_given_what_their_place_calls_for() {
    assert!(matches!(parse_tier("full"), Ok(Tier::Full)));
    assert!(matches!(parse_tier("identity"), Ok(Tier::Identity)));
    assert_eq!(
        parse_tier("x").unwrap_err(),
        "invalid --tier: x (expected 'identity' or 'full')"
    );
    assert_eq!(context_limits(10), (10, 5));
    assert_eq!(context_limits(2), (5, 3));
    assert_eq!(context_signals("", "zeta alpha zeta"), vec!["alpha", "zeta"]);
    let mut s = Store::new();
    seed(&mut s, "p", "name", "body");
    let lines = s.print_context(&vec![], &vec![], &vec![0], &vec![]);
    assert_eq!(lines[0], "## Active Memory Context\n");
    assert!(s.print_context(&vec![], &vec![], &vec![], &vec![]).is_empty());
    let told = s.context_verbose(
        &vec!["rust".to_string()],
        &vec![0],
        &vec!["1.50".to_string()],
        &vec![],
        &vec![],
    );
    assert_eq!(told[0], "[context] signals: rust");
    assert_eq!(told[2], "  1.50  p — d");
    assert_eq!(told[3], "[context] reference (0 returned):");
    assert!(s.kernel_show(&ScopeFilter::All, &vec![])[0].contains("identity kernel is empty"));
}

#[test]
fn memories_are_imported_once() {
    let mut s = Store::new();
    let raw = "---\nname: n\ndescription: d\ntype: user\n---\n\nthe body\n";
    let f = parse_frontmatter(raw).unwrap();
    assert_eq!((f.name.as_str(), f.type_.as_str()), ("n", "user"));
    let (out, line) = s.migrate_file("stem", raw, true, 1000);
    assert_eq!(out, Import::Imported);
    assert_eq!(line.as_deref(), Some("would import: [stem] (user) n"));
    assert!(s.memories.is_empty(), "a dry run imports nothing");
    let (out, line) = s.migrate_file("stem", raw, false, 1000);
    assert_eq!(out, Import::Imported);
    assert_eq!(line.as_deref(), Some("imported: [stem] (user) n"));
    assert_eq!(s.migrate_file("stem", raw, false, 1000).0, Import::Taken);
    assert_eq!(s.migrate_file("other", "no heading", false, 1000).0, Import::Unreadable);
    assert_eq!(s.memories.len(), 1);
    assert_eq!(file_id("a.md").as_deref(), Some("a"));
    assert_eq!(file_id("MEMORY.md"), None);
    assert_eq!(file_id(".md"), None);
    assert_eq!(file_id("a.txt"), None);
    assert_eq!(migrate_last_line(1, 2), "done: 1 imported, 2 skipped");
    let args = MigrateArgs { dir: Some("/d".to_string()), dry_run: false };
    assert_eq!(migrate_dir(&args, "notes", &bare()), "/d");
    let args = MigrateArgs { dir: None, dry_run: false };
    let home = Settings { env: vec![("HOME".to_string(), "/h".to_string())], config: None };
    assert_eq!(migrate_dir(&args, "notes", &home), "/h/notes");
    assert_eq!(migrate_dir(&args, "notes", &bare()), "notes");
}

fn candidate(id: &str, action: &str) -> ApplyCandidate {
    ApplyCandidate {
        id: id.to_string(),
        action: action.to_string(),
        memory_id: None,
        type_: None,
        name: None,
        description: None,
        content: None,
        tags: None,
        cwd: None,
        source: None,
        scope: None,
        active: None,
        reason: None,
        source_report: None,
    }
}

#[test]
fn a_plan_is_applied_by_selection() {
    let mut s = Store::new();
    seed(&mut s, "m1", "keep", "body");
    let mut c = candidate("c1", "archive");
    c.memory_id = Some("m1".to_string());
    c.reason = Some("tidy".to_string());
    let cs = vec![c];
    let ids = vec!["unused".to_string()];
    assert!(!print_apply_candidate(&cs[0]).is_empty());
    let select = |ids: &[&str], dry_run: bool| ApplyPlanArgs {
        file: String::new(),
        select: ids.iter().map(|s| s.to_string()).collect(),
        dry_run,
    };
    assert!(check_plan(&cs, &select(&["c1"], false)).is_ok());
    assert!(check_plan(&cs, &select(&["ghost"], false)).is_err());
    assert!(check_plan(&cs, &select(&[], false)).is_err());
    assert!(check_plan(&cs, &select(&[], true)).is_ok());
    let (told, error) = s.apply_plan(&cs, &ids, &vec!["other".to_string()], 2000, &bare());
    assert!(told.is_empty() && error.is_none());
    assert_eq!(s.get("m1").unwrap().lifecycle, "active");
    let (told, error) = s.apply_plan(&cs, &ids, &vec!["c1".to_string()], 2000, &bare());
    assert_eq!(told, vec!["archive: m1".to_string()]);
    assert!(error.is_none());
    assert_eq!(s.get("m1").unwrap().lifecycle, "archived");
    let bad = vec![candidate("c2", "bogus")];
    let (told, error) = s.apply_plan(&bad, &ids, &vec!["c2".to_string()], 2000, &bare());
    assert!(told.is_empty());
    assert_eq!(error.unwrap(), "candidate c2 has unsupported action: bogus");
}

#[test]
fn a_session_is_given_rules_profile_and_matches() {
    let mut s = Store::new();
    for i in 0..25 {
        seed_typed(&mut s, &format!("f{i}"), "feedback", "rule", "");
    }
    for i in 0..7 {
        seed_typed(&mut s, &format!("u{i}"), "user", "profile", "");
    }
    let (feedback, user) = s.context_always(&ScopeFilter::All);
    assert_eq!(feedback.len(), FEEDBACK_LIMIT);
    assert_eq!(user.len(), USER_LIMIT);
    assert_eq!((FEEDBACK_LIMIT, USER_LIMIT), (20, 5));
    seed_typed(&mut s, "p0", "project", "rust jail", "");
    seed_typed(&mut s, "p1", "project", "other", "");
    s.rebuild_full_index();
    let (all, none) = s.context_candidates(&vec![], "project", 5, &ScopeFilter::All);
    assert_eq!(all.len(), 2);
    assert!(none.is_none());
    let terms = vec!["rust".to_string()];
    let (at, weights) = s.context_candidates(&terms, "project", 5, &ScopeFilter::All);
    assert_eq!(ids(&s, &at), vec!["p0"]);
    assert_eq!(weights.unwrap().len(), 1);
    let scores = vec![rank(0.5), rank(2.0), rank(1.0)];
    assert_eq!(pick_context(&scores, true, 2), vec![1, 2]);
    assert_eq!(pick_context(&scores, false, 2), vec![0, 1, 2]);
}

#[test]
fn a_session_start_is_logged_unless_it_gave_nothing() {
    let mut s = Store::new();
    seed(&mut s, "p", "alpha", "body");
    seed(&mut s, "r", "beta", "body");
    let one = |text: &str| vec![Json::parse(text).unwrap()];
    let terms = vec!["rust".to_string(), "sql".to_string()];
    let call = s
        .context_call(&terms, &vec![], &vec![], &vec![0], &one("1.5"), &vec![1], &one("0.5"))
        .unwrap();
    assert_eq!(call.signals, "rust sql");
    assert_eq!(call.n_scored, 2);
    assert_eq!(
        call.returned,
        "[{\"id\":\"p\",\"name\":\"alpha\",\"score\":1.5},\
         {\"id\":\"r\",\"name\":\"beta\",\"score\":0.5}]"
    );
    let none = s.context_call(&terms, &vec![], &vec![], &vec![], &vec![], &vec![], &vec![]);
    assert!(none.is_none());
    let quiet = s.context_call(&terms, &vec![0], &vec![], &vec![], &vec![], &vec![], &vec![]);
    assert_eq!(quiet.unwrap().returned, "[]");
}

#[test]
fn only_crediting_breaks_ties_and_flags_conflicts() {
    let mut s = Store::new();
    seed(&mut s, "older", "a", "x");
    seed(&mut s, "newer", "b", "x");
    s.memories[1].updated_at = 5000;
    let found = vec![scored(&s, "older", 0.9), scored(&s, "newer", 0.88)];
    let yes = vec![vec![true, true], vec![true, true]];
    let credited = s.order_hits(&found, &vec![0, 1], &yes, &yes, true);
    assert_eq!(credited, vec![1, 0]);
    assert_eq!(s.order_hits(&found, &vec![0, 1], &yes, &yes, false), vec![0, 1]);
    let flags = s.conflict_flags(&found, &credited, &yes, true);
    assert_eq!(flags, vec![vec!["older".to_string()], vec!["newer".to_string()]]);
    assert!(s.conflict_flags(&found, &credited, &yes, false).iter().all(Vec::is_empty));
}

#[test]
fn matches_are_weighed_as_they_are_without_crediting() {
    let mut s = Store::new();
    seed(&mut s, "stale", "old", "x");
    seed(&mut s, "fresh", "new", "x");
    link(&mut s, "stale", "fresh");
    let found = |s: &Store| vec![scored(s, "stale", 0.9), scored(s, "fresh", 0.4)];
    let plain = s.weigh_matches(found(&s), false, &generic(), &ScopeFilter::All);
    assert_eq!(plain.len(), 2);
    assert_eq!(plain[0].cosine, rank(0.9));
    let heads = s.weigh_matches(found(&s), true, &generic(), &ScopeFilter::All);
    assert_eq!(heads.len(), 1);
    assert_eq!(s.memories[heads[0].at].id, "fresh");
    assert_eq!(heads[0].cosine, rank(0.9));
}

#[test]
fn a_credit_never_brings_in_what_was_not_asked_for() {
    let mut s = Store::new();
    seed(&mut s, "stale", "old", "x");
    seed_typed(&mut s, "entry", "kx", "new", "");
    link(&mut s, "stale", "entry");
    let found = vec![scored(&s, "stale", 0.9)];
    assert!(s.credit_heads(&found, &generic(), &ScopeFilter::All).is_empty());
    let index = TypeFilter::Only("kx".to_string());
    assert_eq!(s.credit_heads(&found, &index, &ScopeFilter::All).len(), 1);
    s.memories[1].type_ = "project".to_string();
    s.memories[1].scope = "personal".to_string();
    let work = ScopeFilter::Only(vec!["work".to_string(), "shared".to_string()]);
    assert!(s.credit_heads(&found, &generic(), &work).is_empty());
    assert_eq!(s.credit_heads(&found, &generic(), &ScopeFilter::All).len(), 1);
}

#[test]
fn a_search_never_shows_the_index_as_a_successor() {
    let mut s = Store::new();
    seed(&mut s, "stale", "old", "x");
    seed_typed(&mut s, "entry", "kx", "new", "");
    link(&mut s, "stale", "entry");
    let out = s.print_search(&vec![0]);
    assert!(out.lines.is_empty() && out.error.is_none());
    s.memories[1].type_ = "project".to_string();
    assert!(s.print_search(&vec![0]).lines.iter().any(|l| l.contains("CURRENT")));
}

#[test]
fn a_restored_memory_keeps_one_edge_of_its_past() {
    let mut s = Store::new();
    seed(&mut s, "old", "a", "x");
    seed(&mut s, "new", "b", "y");
    link(&mut s, "old", "new");
    link(&mut s, "old", "new");
    let before = s.events.len();
    set_lifecycle(&mut s, "old", "back", "active").unwrap();
    let pair = s
        .edges
        .iter()
        .filter(|e| e.old_id == "old" && e.new_id.as_deref() == Some("new"))
        .count();
    assert_eq!(pair, 1);
    let m = s.get("old").unwrap();
    assert_eq!(m.lifecycle, "active");
    assert!(m.is_active && m.superseded_by.is_none() && m.supersede_reason.is_none());
    assert_eq!(s.events.len(), before + 1);
    assert_eq!(s.events[before].action, "restore");
}

#[test]
fn a_plan_reads_dashed_bodies_of_what_it_takes() {
    let mut c = candidate("c1", "add");
    c.content = Some("-".to_string());
    let one = |id: &str| vec![id.to_string()];
    assert!(takes_stdin(&c, &one("c1")));
    assert!(takes_stdin(&c, &vec![]));
    assert!(!takes_stdin(&c, &one("c2")));
    c.action = "archive".to_string();
    assert!(!takes_stdin(&c, &one("c1")));
    c.action = "update".to_string();
    assert!(takes_stdin(&c, &one("c1")));
    c.content = Some("text".to_string());
    assert!(!takes_stdin(&c, &one("c1")));
}
