use ci_bench_runner::compare::{compare_results, split_on_threshold};
use ci_bench_runner::db::{Db, ScenarioDiff, ScenarioKind};
use ci_bench_runner::handlers::{
    bench_pr, handle_issue_comment, handle_pr_review, handle_pr_update, BenchPrStep,
    CommentAction, CommentDecision, CommentEvent, Measurements, MeasurementOutcome,
    PullRequestReviewEvent, PullRequestUpdateEvent,
};
use ci_bench_runner::report::{print_report, BenchPrLogs};
use ci_bench_runner::{PrBranches, RepoAndSha, DEFAULT_NOISE_THRESHOLD};

fn comment_event(action: &str, body: &str, login: &str, association: &str) -> CommentEvent {
    CommentEvent {
        action: action.to_string(),
        issue_number: 12,
        is_pull_request: true,
        comment_body: body.to_string(),
        comment_login: login.to_string(),
        comment_author_association: association.to_string(),
    }
}

fn branches() -> PrBranches {
    PrBranches {
        baseline: RepoAndSha {
            branch_name: "main".to_string(),
            commit_sha: "c609978130843652696e748bb9c9f73703d79089".to_string(),
            clone_url: "https://example.com/repo.git".to_string(),
        },
        candidate: RepoAndSha {
            branch_name: "feature".to_string(),
            commit_sha: "7faf240afbdbb4e76c47ff5f3f049c7a78c9c843".to_string(),
            clone_url: "https://example.com/repo.git".to_string(),
        },
    }
}

#[test]
fn comment_handler_triggers_bench_for_trusted_author() {
    let ev = comment_event("created", "@rustls-bench bench", "alice", "OWNER");
    assert_eq!(handle_issue_comment(&ev), CommentDecision::Bench { pr_number: 12 });
}

#[test]
fn comment_handler_replies_help_for_unknown_command() {
    let ev = comment_event("created", "@rustls-bench frobnicate", "alice", "MEMBER");
    assert_eq!(handle_issue_comment(&ev), CommentDecision::ReplyHelp { pr_number: 12 });
}

#[test]
fn comment_handler_ignores_untrusted_and_unrelated() {
    let untrusted = comment_event("created", "@rustls-bench bench", "mallory", "NONE");
    assert_eq!(handle_issue_comment(&untrusted), CommentDecision::Ignore);

    let edited = comment_event("edited", "@rustls-bench bench", "alice", "OWNER");
    assert_eq!(handle_issue_comment(&edited), CommentDecision::Ignore);

    let own = comment_event("created", "@rustls-bench bench", "rustls-bench", "OWNER");
    assert_eq!(handle_issue_comment(&own), CommentDecision::Ignore);

    let unrelated = comment_event("created", "nice work!", "alice", "OWNER");
    assert_eq!(handle_issue_comment(&unrelated), CommentDecision::Ignore);

    let mut plain_issue = comment_event("created", "@rustls-bench bench", "alice", "OWNER");
    plain_issue.is_pull_request = false;
    assert_eq!(handle_issue_comment(&plain_issue), CommentDecision::Ignore);
}

#[test]
fn review_handler_benches_the_reviewed_commit() {
    let ev = PullRequestReviewEvent {
        action: "submitted".to_string(),
        review_author_association: "COLLABORATOR".to_string(),
        review_state: "approved".to_string(),
        review_commit_id: "abc123".to_string(),
        pr_number: 7,
        branches: Some(branches()),
    };
    let (pr, b) = handle_pr_review(&ev).unwrap();
    assert_eq!(pr, 7);
    assert_eq!(b.candidate.commit_sha, "abc123");
    assert_eq!(b.baseline.commit_sha, branches().baseline.commit_sha);

    let rejected = PullRequestReviewEvent {
        action: "submitted".to_string(),
        review_author_association: "COLLABORATOR".to_string(),
        review_state: "changes_requested".to_string(),
        review_commit_id: "abc123".to_string(),
        pr_number: 7,
        branches: Some(branches()),
    };
    assert!(handle_pr_review(&rejected).is_none());
}

#[test]
fn pr_update_handler_rejects_forks() {
    let ev = PullRequestUpdateEvent {
        action: "opened".to_string(),
        pr_number: 3,
        branches: Some(branches()),
    };
    assert!(handle_pr_update(&ev).is_some());

    let mut forked = branches();
    forked.candidate.clone_url = "https://example.com/fork.git".to_string();
    let ev = PullRequestUpdateEvent {
        action: "synchronize".to_string(),
        pr_number: 3,
        branches: Some(forked),
    };
    assert!(handle_pr_update(&ev).is_none());

    let ev = PullRequestUpdateEvent {
        action: "closed".to_string(),
        pr_number: 3,
        branches: Some(branches()),
    };
    assert!(handle_pr_update(&ev).is_none());
}

#[test]
fn compare_results_pairs_scenarios_and_reports_missing() {
    let baseline = vec![("foo".to_string(), 42_500_000u64)];
    let candidate = vec![("foo".to_string(), 42_000_000u64), ("bar".to_string(), 7u64)];
    let thresholds = vec![("foo".to_string(), 300_000u64)];
    let texts = vec![("foo".to_string(), "fake cachegrind diff".to_string())];
    let (diffs, missing) = compare_results(&baseline, &candidate, &thresholds, &texts).unwrap();
    assert_eq!(missing, vec!["bar".to_string()]);
    assert_eq!(diffs.len(), 1);
    assert_eq!(diffs[0].scenario_name, "foo");
    assert_eq!(diffs[0].baseline_result, 42_500_000);
    assert_eq!(diffs[0].candidate_result, 42_000_000);
    assert_eq!(diffs[0].significance_threshold, 300_000);
    assert_eq!(diffs[0].cachegrind_diff, "fake cachegrind diff");

    // A scenario on both sides without a cachegrind text fails the comparison.
    let no_texts: Vec<(String, String)> = Vec::new();
    let err = compare_results(&baseline, &candidate, &thresholds, &no_texts).unwrap_err();
    assert_eq!(err.scenario_name, "foo");
}

fn diff(name: &str, baseline: u64, candidate: u64, threshold: u64) -> ScenarioDiff {
    ScenarioDiff {
        scenario_name: name.to_string(),
        scenario_kind: ScenarioKind::Icount,
        baseline_result: baseline,
        candidate_result: candidate,
        significance_threshold: threshold,
        cachegrind_diff: format!("diff of {name}"),
    }
}

#[test]
fn split_on_threshold_orders_by_ratio_descending() {
    let diffs = vec![
        diff("small", 100_000_000, 100_100_000, 500),
        diff("worse", 100_000_000, 110_000_000, 500),
        diff("better", 100_000_000, 80_000_000, 500),
        diff("noise", 100_000_000, 100_000_100, 500),
    ];
    let (significant, negligible) = split_on_threshold(diffs);
    let names: Vec<&str> = significant.iter().map(|d| d.scenario_name.as_str()).collect();
    assert_eq!(names, vec!["worse", "small", "better"]);
    let names: Vec<&str> = negligible.iter().map(|d| d.scenario_name.as_str()).collect();
    assert_eq!(names, vec!["noise"]);
}

#[test]
fn report_renders_tables_and_missing_scenarios() {
    let result = ci_bench_runner::db::CompareResult {
        diffs: vec![diff("handshake", 42_500_000, 42_000_000, 2_000)],
        scenarios_missing_in_baseline: vec!["fresh".to_string()],
    };
    let report = print_report(result, "https://bench.example/comparisons/a:b/cachegrind-diff");
    assert!(report.starts_with("# Benchmark results\n"));
    assert!(report.contains("* fresh\n"));
    assert!(report.contains("## Significant instruction count differences\n"));
    assert!(report.contains(
        "| handshake | 42.5 | 42 | ✅ [-0.5](https://bench.example/comparisons/a:b/cachegrind-diff/handshake) (-1.18%) | 0.20% |"
    ));
    assert!(report.contains("_There are no other instruction count differences_"));
}

#[test]
fn pipeline_reuses_the_result_comment() {
    let mut db = Db::new();
    let b = branches();

    // First pass: nothing cached yet, so measurements are requested.
    let step = bench_pr(&mut db, 42, &b, "https://bench.example", None).unwrap();
    assert!(matches!(step, BenchPrStep::NeedMeasurements));

    let outcome = MeasurementOutcome {
        outcome: Ok(Measurements {
            baseline_results: vec![("foo".to_string(), 42_500_000)],
            candidate_results: vec![("foo".to_string(), 42_000_000)],
            cachegrind_texts: vec![("foo".to_string(), "fake".to_string())],
        }),
        logs: BenchPrLogs { base: Vec::new(), candidate: Vec::new() },
    };
    let step = bench_pr(&mut db, 42, &b, "https://bench.example", Some(outcome)).unwrap();
    let BenchPrStep::Done(plan) = step else {
        panic!("expected a finished plan");
    };
    assert_eq!(plan.action, CommentAction::CreateComment);
    assert!(plan.body.contains("# Benchmark results"));

    // The caller posts the comment and remembers its identifier.
    db.store_result_comment_id(42, 100);

    // Later passes find the cached comparison and update the same comment.
    let step = bench_pr(&mut db, 42, &b, "https://bench.example", None).unwrap();
    let BenchPrStep::Done(plan) = step else {
        panic!("expected a finished plan from the cache");
    };
    assert_eq!(plan.action, CommentAction::UpdateComment { comment_id: 100 });
    assert!(plan.body.contains("# Benchmark results"));
}

#[test]
fn pipeline_ignores_non_main_bases() {
    let mut db = Db::new();
    let mut b = branches();
    b.baseline.branch_name = "release".to_string();
    let step = bench_pr(&mut db, 42, &b, "https://bench.example", None).unwrap();
    assert!(matches!(step, BenchPrStep::NotApplicable));
}

#[test]
fn pipeline_reports_harness_failures_in_the_comment() {
    let mut db = Db::new();
    let b = branches();
    let outcome = MeasurementOutcome {
        outcome: Err("benchmark harness crashed".to_string()),
        logs: BenchPrLogs { base: Vec::new(), candidate: Vec::new() },
    };
    let step = bench_pr(&mut db, 42, &b, "https://bench.example", Some(outcome)).unwrap();
    let BenchPrStep::Done(plan) = step else {
        panic!("expected a finished plan");
    };
    assert!(plan.body.contains("# Error running benchmarks"));
    assert!(plan.body.contains("benchmark harness crashed"));
    assert!(plan.body.contains("_Not available_"));
    assert_eq!(plan.action, CommentAction::CreateComment);
    // Nothing was cached on failure.
    assert!(db
        .comparison_result(&b.baseline.commit_sha, &b.candidate.commit_sha)
        .unwrap()
        .is_none());
}

#[test]
fn default_threshold_applies_to_unknown_scenarios() {
    let baseline = vec![("foo".to_string(), 1_000_000u64)];
    let candidate = vec![("foo".to_string(), 1_000_000u64)];
    let texts = vec![("foo".to_string(), "t".to_string())];
    let thresholds: Vec<(String, u64)> = Vec::new();
    let (diffs, _) = compare_results(&baseline, &candidate, &thresholds, &texts).unwrap();
    assert_eq!(diffs[0].significance_threshold, DEFAULT_NOISE_THRESHOLD);
}
