use ci_bench_runner::db::{Db, DbError, ScenarioDiff, ScenarioKind};

fn empty_db() -> Db {
    Db::new()
}

#[test]
fn test_store_load_results_round_trips_and_orders_by_time() {
    let mut db = empty_db();

    db.store_run_results(vec![("foo".to_string(), 42_000_000)]);
    db.store_run_results(vec![("foo".to_string(), 41_000_000)]);
    db.store_run_results(vec![("foo".to_string(), 43_000_000)]);

    let history = db.result_history(i128::MIN);

    assert_eq!(history.len(), 3);
    assert_eq!(history[0].result, 42_000_000);
    assert_eq!(history[1].result, 41_000_000);
    assert_eq!(history[2].result, 43_000_000);
}

#[test]
fn test_store_load_event_round_trips_and_orders_by_time() {
    let mut db = empty_db();

    let id1 = db.enqueue_event("foo", &[1, 2, 3, 4]);
    let id2 = db.enqueue_event("bar", &[1, 2, 3, 4]);

    let event = db.next_queued_event().unwrap();
    assert_eq!(id1, event.id);
    assert_eq!(event.payload, [1, 2, 3, 4]);

    db.delete_event(id1);

    let event = db.next_queued_event().unwrap();
    assert_eq!(id2, event.id);

    let job_id = db.new_job_for_event(event.id, event.created_utc);
    let job = db.job(job_id).unwrap();
    assert_eq!(job.id, job_id);
    assert_eq!(job.finished_utc, None);

    db.job_finished(job_id);
    let job = db.job(job_id).unwrap();

    assert!(job.finished_utc.is_some());
}

#[test]
fn test_store_load_comparison_diff_round_trips() {
    let mut db = empty_db();

    let baseline_commit = "c609978130843652696e748bb9c9f73703d79089";
    let candidate_commit = "7faf240afbdbb4e76c47ff5f3f049c7a78c9c843";
    let diffs = vec![
        ScenarioDiff {
            scenario_name: "foo".to_string(),
            scenario_kind: ScenarioKind::Icount,
            candidate_result: 42_000_000,
            baseline_result: 42_500_000,
            significance_threshold: 300_000,
            cachegrind_diff: "fake cachegrind diff".to_string(),
        },
        ScenarioDiff {
            scenario_name: "bar".to_string(),
            scenario_kind: ScenarioKind::Icount,
            candidate_result: 100_000_000,
            baseline_result: 104_000_000,
            significance_threshold: 5_000_000,
            cachegrind_diff: "fake cachegrind diff 2".to_string(),
        },
    ];
    let kept: Vec<ScenarioDiff> = diffs.iter().map(|d| d.duplicate()).collect();

    db.store_comparison_result(
        baseline_commit.to_string(),
        candidate_commit.to_string(),
        Vec::new(),
        kept,
    );
    let comparison = db.comparison_result(baseline_commit, candidate_commit).unwrap();

    let Some(mut comparison) = comparison else {
        panic!("no comparison results found for the provided commits");
    };

    assert!(comparison.scenarios_missing_in_baseline.is_empty());
    assert_eq!(comparison.diffs.len(), 2);

    comparison
        .diffs
        .sort_by(|d1, d2| d1.scenario_name.cmp(&d2.scenario_name));
    assert_eq!(comparison.diffs[0], diffs[1]);

    let cachegrind_diff = db.cachegrind_diff(baseline_commit, candidate_commit, "foo");
    assert_eq!(cachegrind_diff, Some("fake cachegrind diff".to_string()));

    let cachegrind_diff = db.cachegrind_diff(baseline_commit, candidate_commit, "non-existent");
    assert_eq!(cachegrind_diff, None);
}

#[test]
fn test_store_load_comparison_diff_with_missing_scenarios_round_trips() {
    let mut db = empty_db();

    let baseline_commit = "c609978130843652696e748bb9c9f73703d79089";
    let candidate_commit = "7faf240afbdbb4e76c47ff5f3f049c7a78c9c843";
    let diffs = vec![ScenarioDiff {
        scenario_name: "foo".to_string(),
        scenario_kind: ScenarioKind::Icount,
        candidate_result: 42_000_000,
        baseline_result: 42_500_000,
        significance_threshold: 300_000,
        cachegrind_diff: "fake cachegrind diff".to_string(),
    }];
    let kept: Vec<ScenarioDiff> = diffs.iter().map(|d| d.duplicate()).collect();

    db.store_comparison_result(
        baseline_commit.to_string(),
        candidate_commit.to_string(),
        vec!["bar".to_string()],
        kept,
    );
    let comparison = db.comparison_result(baseline_commit, candidate_commit).unwrap();

    let Some(comparison) = comparison else {
        panic!("no comparison results found for the provided commits");
    };

    assert_eq!(comparison.scenarios_missing_in_baseline, ["bar".to_string()]);
    assert_eq!(comparison.diffs.len(), 1);
    assert_eq!(comparison.diffs[0], diffs[0]);
}

#[test]
fn test_store_load_result_comment_id_round_trips() {
    let mut db = empty_db();

    let original_comment_id = 100;
    db.store_result_comment_id(42, original_comment_id);
    let comment_id = db.result_comment_id(42);

    assert_eq!(comment_id, Some(original_comment_id));

    let comment_id = db.result_comment_id(43);
    assert_eq!(comment_id, None);
}

#[test]
fn next_queued_event_fails_on_empty_queue() {
    let db = empty_db();
    assert_eq!(db.next_queued_event().unwrap_err(), DbError::NotFound);
    assert_eq!(db.queued_event_count(), 0);
}

#[test]
fn job_lookup_fails_for_unknown_id() {
    let db = empty_db();
    assert_eq!(db.job(7).unwrap_err(), DbError::NotFound);
    assert_eq!(db.maybe_job(7), None);
}

#[test]
fn delete_event_ignores_absent_ids() {
    let mut db = empty_db();
    let id = db.enqueue_event("foo", &[1]);
    db.delete_event(id.wrapping_add(1));
    assert_eq!(db.queued_event_count(), 1);
    db.delete_event(id);
    assert_eq!(db.queued_event_count(), 0);
}

#[test]
fn job_binding_records_event_queue_time() {
    let mut db = empty_db();
    let id = db.enqueue_event("pull_request", &[9, 9]);
    let event = db.next_queued_event().unwrap();
    let job_id = db.new_job_for_event(id, event.created_utc);
    let job = db.job(job_id).unwrap();
    assert_eq!(job.event_queued_utc, event.created_utc);
    assert!(job.created_utc >= event.created_utc);
    let events = db.queued_events();
    assert_eq!(events[0].job_id, Some(job_id));
    let jobs = db.jobs();
    assert_eq!(jobs.len(), 1);
    assert_eq!(jobs[0].id, job_id);
}

#[test]
fn scenario_kind_decodes_only_known_values() {
    assert_eq!(ScenarioKind::try_from(0), Ok(ScenarioKind::Icount));
    assert_eq!(ScenarioKind::try_from(1), Err(DbError::DataCorruption));
    assert_eq!(ScenarioKind::Icount.as_i64(), 0);
}

#[test]
fn scenario_diff_ratio_is_fixed_point() {
    let d = ScenarioDiff {
        scenario_name: "foo".to_string(),
        scenario_kind: ScenarioKind::Icount,
        baseline_result: 42_000_000,
        candidate_result: 42_500_000,
        significance_threshold: 300_000,
        cachegrind_diff: String::new(),
    };
    assert_eq!(d.diff(), 500_000);
    // 0.5 / 42 of the scale: 11904 millionths, rounded towards zero.
    assert_eq!(d.diff_ratio(), 11904);

    let worse = ScenarioDiff {
        scenario_name: "bar".to_string(),
        scenario_kind: ScenarioKind::Icount,
        baseline_result: 104_000_000,
        candidate_result: 100_000_000,
        significance_threshold: 5_000_000,
        cachegrind_diff: String::new(),
    };
    assert_eq!(worse.diff(), -4_000_000);
    assert_eq!(worse.diff_ratio(), -38461);
}
