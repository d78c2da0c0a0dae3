use agent_store::metrics::{
    order_by_cost, report_groups, token_totals, write_report_head, write_report_line, Averages,
    Completion, ReportArgs, Usage,
};
use agent_store::store::Rank;
use agent_store::tasks::{
    CreateArgs, ListArgs, ShowArgs, TaskStore, UpdateArgs,
};

const NOW: i64 = 1_700_000_000;

fn create(t: &mut TaskStore, id: &str, cwd: &str, ts: i64) {
    let args = CreateArgs {
        objective: format!("do {id}"),
        task_type: "research".to_string(),
        cwd: cwd.to_string(),
        parent_id: None,
    };
    t.create(&args, id, ts).unwrap();
}

fn update(id: &str, status: Option<&str>) -> UpdateArgs {
    UpdateArgs {
        id: id.to_string(),
        status: status.map(|s| s.to_string()),
        result: None,
        completion_id: None,
    }
}

fn list(status: Option<&str>, cwd: Option<&str>, limit: usize) -> ListArgs {
    ListArgs {
        status: status.map(|s| s.to_string()),
        cwd: cwd.map(|s| s.to_string()),
        limit,
        days: 7,
    }
}

#[test]
fn a_task_lives_from_pending_to_done() {
    let mut t = TaskStore::new();
    create(&mut t, "t1", "/home/me", NOW);
    assert_eq!(t.tasks[0].status, "pending");
    assert_eq!(t.resume(), vec!["(no resumable tasks)"]);
    t.update(&update("t1", Some("in_progress")), NOW + 1).unwrap();
    assert_eq!(
        t.resume(),
        vec![
            "[t1] in_progress  (research) 2023-11-14 22:13",
            "  do t1",
            "  cwd: /home/me",
        ]
    );
    let mut done = update("t1", Some("completed"));
    done.result = Some("ok".to_string());
    t.update(&done, NOW + 2).unwrap();
    let shown = t.show(&ShowArgs { id: "t1".to_string() }).unwrap();
    assert_eq!(shown[1], "status:      completed");
    assert_eq!(shown[shown.len() - 1], "ok");
    assert_eq!(shown[5], "created:     2023-11-14 22:13:20");
}

#[test]
fn task_errors_say_what_is_wrong() {
    let mut t = TaskStore::new();
    create(&mut t, "t1", "", NOW);
    assert_eq!(
        t.update(&update("ghost", Some("failed")), NOW).unwrap_err(),
        "no task with id=ghost"
    );
    assert!(t.update(&update("ghost", None), NOW).is_ok(), "nothing to change");
    assert!(t.show(&ShowArgs { id: "ghost".to_string() }).is_err());
    let again = CreateArgs {
        objective: String::new(),
        task_type: String::new(),
        cwd: String::new(),
        parent_id: None,
    };
    assert!(t.create(&again, "t1", NOW).is_err());
    assert_eq!(t.tasks.len(), 1);
}

#[test]
fn tasks_are_listed_newest_first() {
    let mut t = TaskStore::new();
    create(&mut t, "a", "/work/x", NOW - 10);
    create(&mut t, "b", "", NOW);
    create(&mut t, "old", "", NOW - 8 * 86_400);
    assert_eq!(
        t.list(&list(None, None, 9), NOW),
        vec![
            "[b] pending      (research) 2023-11-14 22:13",
            "  do b",
            "[a] pending      (research) 2023-11-14 22:13",
            "  do a  cwd: /work/x",
        ]
    );
    assert_eq!(t.list(&list(None, Some("work"), 9), NOW).len(), 2);
    assert_eq!(t.list(&list(Some("failed"), None, 9), NOW).len(), 0);
    assert_eq!(t.list(&list(None, None, 1), NOW).len(), 2);
}

fn run(id: &str, model: &str, status: &str, at: i64) -> Completion {
    Completion {
        id: id.to_string(),
        model: model.to_string(),
        provider: "p".to_string(),
        task_type: "research".to_string(),
        objective: "o".repeat(100),
        status: status.to_string(),
        wall_ms: Some(1200),
        created_at: at,
    }
}

fn usage(id: &str, input: i64, output: i64, cache: i64) -> Usage {
    Usage {
        completion_id: id.to_string(),
        input_tokens: input,
        output_tokens: output,
        cache_read: cache,
        cost_shown: "0.0100".to_string(),
    }
}

#[test]
fn runs_are_grouped_and_counted() {
    let runs = vec![
        run("1", "m", "completed", NOW),
        run("2", "m", "failed", NOW),
        run("3", "n", "completed", NOW),
        run("4", "m", "completed", NOW),
        run("5", "m", "completed", NOW - 40 * 86_400),
    ];
    let args = ReportArgs { days: 30, model: None, task_type: None };
    let groups = report_groups(&runs, &args, NOW);
    assert_eq!(groups.len(), 2);
    assert_eq!(groups[0].at, vec![0, 1, 3]);
    assert_eq!(groups[0].successes, 2);
    let only = ReportArgs { days: 30, model: Some("n".to_string()), task_type: None };
    assert_eq!(report_groups(&runs, &only, NOW).len(), 1);
    let a = Averages {
        wall_ms: "1200".to_string(),
        tools: "0.0".to_string(),
        cost: "0.000000".to_string(),
        tokens: "0".to_string(),
        cache: "0".to_string(),
    };
    assert_eq!(
        write_report_line(&groups[0], &a),
        format!(
            "{:<35} {:<10} {:>5} {:>4}% {:>8} {:>7} {:>10} {:>8} {:>6}%",
            "m / research", "p", 3, 66, "1200", "0.0", "0.000000", "0", "0"
        )
    );
    let head = write_report_head();
    assert_eq!(head[0].chars().count(), 103);
    assert_eq!(head[1], "-".repeat(100));
}

#[test]
fn tokens_add_up_and_costs_order() {
    let us = vec![usage("1", 10, 5, 2), usage("2", 1, 1, 1), usage("1", 1, 0, 0)];
    assert_eq!(token_totals(&us, "1"), Ok(Some((16, 2))));
    assert_eq!(token_totals(&us, "9"), Ok(None));
    let us = vec![usage("1", i64::MAX, -5, 0), usage("1", 6, 0, 0)];
    assert_eq!(token_totals(&us, "1"), Err("integer overflow".to_string()));
    let costs = vec![None, Some(Rank { key: 5 }), Some(Rank { key: 9 })];
    assert_eq!(order_by_cost(&costs), vec![2, 1, 0]);
}

#[test]
fn a_run_is_listed_once_for_each_use() {
    let runs = vec![run("1", "m", "completed", NOW), run("2", "m", "failed", NOW + 5)];
    let us = vec![usage("1", 1, 1, 0), usage("1", 1, 1, 0)];
    let args = agent_store::metrics::ListArgs { limit: 10, days: 7 };
    let lines = agent_store::metrics::list(&runs, &us, &args, NOW);
    assert_eq!(lines.len(), 6);
    assert_eq!(
        lines[0],
        "[2] 2023-11-14 22:13  failed       m (research)  1200ms  "
    );
    assert_eq!(
        lines[2],
        "[1] 2023-11-14 22:13  completed    m (research)  1200ms  $0.0100"
    );
    assert_eq!(lines[1], format!("  {}", "o".repeat(80)));
}

#[test]
fn a_status_is_free_form_and_only_given_fields_change() {
    let mut t = TaskStore::new();
    create(&mut t, "t1", "/w", NOW);
    t.update(&update("t1", Some("blocked")), NOW + 5).unwrap();
    let task = &t.tasks[0];
    assert_eq!(task.status, "blocked");
    assert_eq!(task.result, None);
    assert_eq!(task.completion_id, None);
    assert_eq!((task.objective.as_str(), task.cwd.as_str()), ("do t1", "/w"));
    assert_eq!((task.created_at, task.updated_at), (NOW, NOW + 5));
    let mut result = update("t1", None);
    result.result = Some("half".to_string());
    t.update(&result, NOW + 6).unwrap();
    assert_eq!(t.tasks[0].status, "blocked");
    assert_eq!(t.tasks[0].result.as_deref(), Some("half"));
}
