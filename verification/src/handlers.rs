//! Event handlers and the bench pipeline: deciding which webhook events
//! constitute a valid bench request from a trusted author, and planning the
//! comparison run, the result comment and its idempotent update.
//!
//! The handlers work on plain event values; reading webhook payloads into
//! them, running the benchmark harness, and talking to the platform are the
//! caller's side of the split.
use vstd::prelude::*;

use crate::analysis::{calculate_significance_thresholds, significance_threshold_for};
use crate::compare::{compare_results, compare_spec, text_views, CompareError};
use crate::db::{benchresult_views, comparison_record, diff_views, find_comment, find_comparison,
    history_of, result_views, str_eq, CompareResult, Db, DbError};
use crate::report::{comment_text, log_views, maybe_truncate_comment, BenchPrError, BenchPrLogs,
    BenchPrResult, LogModel, MAX_COMMENT_LEN};
use crate::trusted::views_of;
use crate::{PrBranches, RepoAndSha};
use vstd::string::{StrSliceExecFns, StringExecFns};

verus! {

/// An "issue comment" webhook, reduced to the fields the handler reads.
pub struct CommentEvent {
    pub action: String,
    pub issue_number: u64,
    pub is_pull_request: bool,
    pub comment_body: String,
    pub comment_login: String,
    pub comment_author_association: String,
}

/// Mathematical value of a comment event.
#[verifier::ext_equal]
pub ghost struct CommentEventModel {
    pub action: Seq<char>,
    pub issue_number: u64,
    pub is_pull_request: bool,
    pub comment_body: Seq<char>,
    pub comment_login: Seq<char>,
    pub comment_author_association: Seq<char>,
}

impl View for CommentEvent {
    type V = CommentEventModel;

    open spec fn view(&self) -> CommentEventModel {
        CommentEventModel {
            action: self.action@,
            issue_number: self.issue_number,
            is_pull_request: self.is_pull_request,
            comment_body: self.comment_body@,
            comment_login: self.comment_login@,
            comment_author_association: self.comment_author_association@,
        }
    }
}

/// What a comment asks for.
#[derive(Clone, Copy, Debug, PartialEq, Eq, Structural)]
pub enum CommentDecision {
    /// Run the benchmarks for this pull request.
    Bench { pr_number: u64 },
    /// Reply with the list of available commands.
    ReplyHelp { pr_number: u64 },
    /// Not a bench request: leave the event alone.
    Ignore,
}

/// The author associations allowed to trigger benchmarks: the repository
/// owner, an organization member, or an invited collaborator.
pub open spec fn trusted_association(a: Seq<char>) -> bool {
    a == "OWNER"@ || a == "MEMBER"@ || a == "COLLABORATOR"@
}

/// Whether the author association is one of the trusted ones.
pub fn is_trusted_association(a: &str) -> (r: bool)
    ensures
        r == trusted_association(a@),
{
    str_eq(a, "OWNER") || str_eq(a, "MEMBER") || str_eq(a, "COLLABORATOR")
}

/// Whether `needle` occurs as a contiguous subsequence of `haystack`.
pub open spec fn contains_seq(haystack: Seq<char>, needle: Seq<char>) -> bool {
    exists|i: int|
        0 <= i && i + needle.len() <= haystack.len() && #[trigger] haystack.subrange(
            i,
            i + needle.len(),
        ) == needle
}

/// Substring search, character for character.
#[verifier::rlimit(100)]
#[verifier::spinoff_prover]
pub fn str_contains(haystack: &str, needle: &str) -> (r: bool)
    ensures
        r == contains_seq(haystack@, needle@),
{
    let hl = haystack.unicode_len();
    let nl = needle.unicode_len();
    if nl > hl {
        proof {
            assert(!contains_seq(haystack@, needle@));
        }
        false
    } else if nl == 0 {
        proof {
            assert(haystack@.subrange(0, 0 + needle@.len() as int) =~= needle@);
            assert(contains_seq(haystack@, needle@));
        }
        true
    } else {
        let mut i: usize = 0;
        let mut found = false;
        while !found && i <= hl - nl
            invariant
                hl == haystack@.len(),
                nl == needle@.len(),
                1 <= nl <= hl,
                i <= hl - nl + 1,
                found ==> contains_seq(haystack@, needle@),
                !found ==> forall|p: int|
                    0 <= p < i ==> #[trigger] haystack@.subrange(p, p + needle@.len()) != needle@,
            decreases hl - i + (if found {
                0int
            } else {
                1int
            }),
        {
            let mut j: usize = 0;
            let mut matched = true;
            while matched && j < nl
                invariant
                    hl == haystack@.len(),
                    nl == needle@.len(),
                    i + nl <= hl,
                    j <= nl,
                    matched ==> forall|q: int| 0 <= q < j ==> haystack@[i + q] == needle@[q],
                    !matched ==> haystack@.subrange(i as int, i + needle@.len()) != needle@,
                decreases nl - j + (if matched {
                    1int
                } else {
                    0int
                }),
            {
                if haystack.get_char(i + j) != needle.get_char(j) {
                    proof {
                        let sub = haystack@.subrange(i as int, i + needle@.len());
                        if sub == needle@ {
                            assert(sub[j as int] == haystack@[i + j]);
                        }
                    }
                    matched = false;
                } else {
                    j += 1;
                }
            }
            if matched {
                proof {
                    assert(haystack@.subrange(i as int, i + needle@.len()) =~= needle@);
                }
                found = true;
            } else {
                i += 1;
            }
        }
        proof {
            if !found {
                assert forall|p: int|
                    0 <= p && p + needle@.len() <= haystack@.len() implies #[trigger] haystack@.subrange(
                    p,
                    p + needle@.len(),
                ) != needle@ by {
                    assert(p < i);
                }
                assert(!contains_seq(haystack@, needle@));
            }
            assert(found == contains_seq(haystack@, needle@));
        }
        found
    }
}

/// The decision the comment handler takes: benchmarks for a freshly created
/// comment on a pull request by a trusted author addressing the bot with the
/// bench command; a help reply when the bot is addressed without a known
/// command; nothing otherwise (including the bot's own comments).
pub open spec fn comment_decision(e: CommentEventModel) -> CommentDecision {
    if !e.is_pull_request {
        CommentDecision::Ignore
    } else if e.action != "created"@ {
        CommentDecision::Ignore
    } else if e.comment_login == "rustls-bench"@ {
        CommentDecision::Ignore
    } else if !trusted_association(e.comment_author_association) {
        CommentDecision::Ignore
    } else if contains_seq(e.comment_body, "@rustls-bench bench"@) {
        CommentDecision::Bench { pr_number: e.issue_number }
    } else if contains_seq(e.comment_body, "@rustls-bench"@) {
        CommentDecision::ReplyHelp { pr_number: e.issue_number }
    } else {
        CommentDecision::Ignore
    }
}

/// Handle an "issue comment": decide whether it is a bench request, an
/// unrecognized command addressed at the bot, or nothing.
pub fn handle_issue_comment(payload: &CommentEvent) -> (r: CommentDecision)
    ensures
        r == comment_decision(payload@),
{
    if !payload.is_pull_request {
        CommentDecision::Ignore
    } else if !str_eq(payload.action.as_str(), "created") {
        CommentDecision::Ignore
    } else if str_eq(payload.comment_login.as_str(), "rustls-bench") {
        CommentDecision::Ignore
    } else if !is_trusted_association(payload.comment_author_association.as_str()) {
        CommentDecision::Ignore
    } else if str_contains(payload.comment_body.as_str(), "@rustls-bench bench") {
        CommentDecision::Bench { pr_number: payload.issue_number }
    } else if str_contains(payload.comment_body.as_str(), "@rustls-bench") {
        CommentDecision::ReplyHelp { pr_number: payload.issue_number }
    } else {
        CommentDecision::Ignore
    }
}

/// The body of the help reply to an unrecognized command.
pub fn help_comment_body() -> (r: String)
    ensures
        r@ == "Unrecognized command. Available commands are:\n* `@rustls-bench bench`: runs the instruction count benchmarks and reports the results"@,
{
    let mut s = String::new();
    s.append(
        "Unrecognized command. Available commands are:\n* `@rustls-bench bench`: runs the instruction count benchmarks and reports the results",
    );
    proof {
        assert(s@ =~= "Unrecognized command. Available commands are:\n* `@rustls-bench bench`: runs the instruction count benchmarks and reports the results"@);
    }
    s
}

/// A "pull request review" webhook, reduced to the fields the handler reads.
pub struct PullRequestReviewEvent {
    pub action: String,
    pub review_author_association: String,
    pub review_state: String,
    pub review_commit_id: String,
    pub pr_number: u64,
    pub branches: Option<PrBranches>,
}

/// Handle a "PR review": benchmarks run when a trusted author submits an
/// approval, and the candidate commit is the one the approval names, not
/// the pull request's current head.
pub fn handle_pr_review(payload: &PullRequestReviewEvent) -> (r: Option<(u64, PrBranches)>)
    ensures
        r is Some <==> (payload.action@ == "submitted"@ && trusted_association(
            payload.review_author_association@,
        ) && payload.review_state@ == "approved"@ && payload.branches is Some),
        r matches Some(p) ==> p.0 == payload.pr_number && (payload.branches matches Some(b)
            && p.1@ == (crate::PrBranchesModel {
            candidate: (crate::RepoAndShaModel {
                commit_sha: payload.review_commit_id@,
                ..b@.candidate
            }),
            ..b@
        })),
{
    if !str_eq(payload.action.as_str(), "submitted") {
        None
    } else if !is_trusted_association(payload.review_author_association.as_str()) {
        None
    } else if !str_eq(payload.review_state.as_str(), "approved") {
        None
    } else {
        match &payload.branches {
            None => None,
            Some(b) => {
                // Bench the commit that was reviewed, and not something else.
                let branches = PrBranches {
                    baseline: b.baseline.duplicate(),
                    candidate: RepoAndSha {
                        branch_name: b.candidate.branch_name.clone(),
                        commit_sha: payload.review_commit_id.clone(),
                        clone_url: b.candidate.clone_url.clone(),
                    },
                };
                Some((payload.pr_number, branches))
            },
        }
    }
}

/// A "pull request update" webhook, reduced to the fields the handler reads.
pub struct PullRequestUpdateEvent {
    pub action: String,
    pub pr_number: u64,
    pub branches: Option<PrBranches>,
}

/// Handle a "PR update": benchmarks run when a pull request is opened or its
/// branches are updated, and only when head and base live in the same
/// repository — pull requests from forks are rejected to avoid executing
/// untrusted code.
pub fn handle_pr_update(payload: &PullRequestUpdateEvent) -> (r: Option<(u64, PrBranches)>)
    ensures
        r is Some <==> ((payload.action@ == "opened"@ || payload.action@ == "synchronize"@) && (
        payload.branches matches Some(b) && b@.baseline.clone_url == b@.candidate.clone_url)),
        r matches Some(p) ==> p.0 == payload.pr_number && (payload.branches matches Some(b) && p.1@
            == b@),
{
    let action_ok = str_eq(payload.action.as_str(), "opened") || str_eq(
        payload.action.as_str(),
        "synchronize",
    );
    if !action_ok {
        None
    } else {
        match &payload.branches {
            None => None,
            Some(b) => {
                if str_eq(b.baseline.clone_url.as_str(), b.candidate.clone_url.as_str()) {
                    Some((payload.pr_number, b.duplicate()))
                } else {
                    None
                }
            },
        }
    }
}

/// What the harness produced for both sides: per-scenario instruction counts
/// (fixed-point, in millionths) and the per-scenario cachegrind diff texts.
pub struct Measurements {
    pub baseline_results: Vec<(String, u64)>,
    pub candidate_results: Vec<(String, u64)>,
    pub cachegrind_texts: Vec<(String, String)>,
}

/// The outside outcome of running the benchmarks: the measurements, or the
/// failure message, plus the captured logs.
pub struct MeasurementOutcome {
    pub outcome: Result<Measurements, String>,
    pub logs: BenchPrLogs,
}

/// How the result comment is to be published: edit the remembered comment,
/// or create a new one (and remember its identifier).
#[derive(Clone, Copy, Debug, PartialEq, Eq, Structural)]
pub enum CommentAction {
    CreateComment,
    UpdateComment { comment_id: u64 },
}

/// A planned comment: its body and how to publish it.
pub struct CommentPlan {
    pub body: String,
    pub action: CommentAction,
}

/// What one pipeline step asks the caller to do next.
pub enum BenchPrStep {
    /// The request is out of scope (non-main base branch): nothing happens.
    NotApplicable,
    /// No cached comparison exists: run the benchmarks and call again.
    NeedMeasurements,
    /// The comment is ready to publish; commit status ends in success.
    Done(CommentPlan),
}

/// The comment-publishing action the pipeline takes for a pull request:
/// update the remembered comment if one exists, else create one.
pub open spec fn comment_action_for(
    comments: Seq<crate::db::ResultComment>,
    pr_number: u64,
) -> CommentAction {
    match find_comment(comments, pr_number) {
        Some(cid) => CommentAction::UpdateComment { comment_id: cid },
        None => CommentAction::CreateComment,
    }
}

/// A comment body truncated to the platform ceiling.
pub open spec fn truncated(s: Seq<char>) -> Seq<char> {
    if s.len() > MAX_COMMENT_LEN {
        s.take(MAX_COMMENT_LEN as int)
    } else {
        s
    }
}

/// The cachegrind-diff permalink prefix for a commit pair.
pub open spec fn diff_url_text(base: Seq<char>, baseline_sha: Seq<char>, candidate_sha: Seq<char>) -> Seq<char> {
    base + "/comparisons/"@ + baseline_sha + ":"@ + candidate_sha + "/cachegrind-diff"@
}

/// The failure message when a scenario's cachegrind diff text is missing.
pub open spec fn missing_diff_error_text(name: Seq<char>) -> Seq<char> {
    "missing cachegrind diff for scenario: "@ + name
}

/// A valid threshold table for a history: every entry carries the scenario's
/// threshold, every scenario with a threshold appears, and names are unique.
pub open spec fn thresholds_table_for(
    hist: Seq<(Seq<char>, u64)>,
    tv: Seq<(Seq<char>, u64)>,
) -> bool {
    &&& forall|i: int|
        0 <= i < tv.len() ==> significance_threshold_for(hist, (#[trigger] tv[i]).0) == Some(
            tv[i].1,
        )
    &&& forall|name: Seq<char>|
        (#[trigger] significance_threshold_for(hist, name)) is Some ==> exists|i: int|
            0 <= i < tv.len() && (#[trigger] tv[i]).0 == name
    &&& forall|i: int, j: int| 0 <= i < j < tv.len() ==> tv[i].0 != tv[j].0
}

/// What a successful fresh comparison guarantees: for some cutoff, a valid
/// threshold table under which the comparison of the measurements yields
/// exactly the returned diffs and missing list, and the comparison was
/// appended to the store under the commit pair.
pub open spec fn cache_ok_post(
    old_m: crate::db::DbModel,
    new_m: crate::db::DbModel,
    base: Seq<(Seq<char>, u64)>,
    cand: Seq<(Seq<char>, u64)>,
    texts: Seq<(Seq<char>, Seq<char>)>,
    branches: crate::PrBranchesModel,
    cr_diffs: Seq<crate::db::DiffModel>,
    cr_missing: Seq<Seq<char>>,
) -> bool {
    exists|cutoff: int, tv: Seq<(Seq<char>, u64)>|
        #[trigger] thresholds_table_for(history_of(old_m.runs, cutoff), tv) && compare_spec(
            base,
            cand,
            tv,
            texts,
        ) == Ok::<(Seq<crate::db::DiffModel>, Seq<Seq<char>>), Seq<char>>((cr_diffs, cr_missing))
            && exists|id: u128, t: i128|
            new_m.comparisons == old_m.comparisons.push(
                #[trigger] comparison_record(
                    id,
                    t,
                    branches.baseline.commit_sha,
                    branches.candidate.commit_sha,
                    cr_missing,
                    cr_diffs,
                ),
            )
}

/// What a failed fresh comparison guarantees: the store is untouched, and
/// under some valid threshold table the comparison fails on that scenario.
pub open spec fn cache_err_post(
    old_m: crate::db::DbModel,
    base: Seq<(Seq<char>, u64)>,
    cand: Seq<(Seq<char>, u64)>,
    texts: Seq<(Seq<char>, Seq<char>)>,
    name: Seq<char>,
) -> bool {
    exists|cutoff: int, tv: Seq<(Seq<char>, u64)>|
        #[trigger] thresholds_table_for(history_of(old_m.runs, cutoff), tv) && compare_spec(
            base,
            cand,
            tv,
            texts,
        ) == Err::<(Seq<crate::db::DiffModel>, Seq<Seq<char>>), Seq<char>>(name)
}

/// Thirty days, in nanoseconds.
pub const HISTORY_WINDOW_NANOS: i128 = 2_592_000_000_000_000;

/// Compute a fresh comparison and cache it: derive the significance
/// thresholds from the thirty-day history, compare the two sides, and store
/// the comparison under the commit pair. On failure the store is untouched.
#[verifier::rlimit(100)]
#[verifier::spinoff_prover]
pub fn bench_pr_and_cache_results(db: &mut Db, branches: &PrBranches, measurements: &Measurements)
    -> (r: Result<CompareResult, CompareError>)
    requires
        old(db).wf(),
    ensures
        final(db).wf(),
        final(db)@.events == old(db)@.events,
        final(db)@.jobs == old(db)@.jobs,
        final(db)@.runs == old(db)@.runs,
        final(db)@.result_comments == old(db)@.result_comments,
        r matches Ok(cr) ==> cache_ok_post(
            old(db)@,
            final(db)@,
            result_views(measurements.baseline_results@),
            result_views(measurements.candidate_results@),
            text_views(measurements.cachegrind_texts@),
            branches@,
            diff_views(cr.diffs@),
            views_of(cr.scenarios_missing_in_baseline@),
        ),
        r matches Err(e) ==> final(db)@ == old(db)@ && cache_err_post(
            old(db)@,
            result_views(measurements.baseline_results@),
            result_views(measurements.candidate_results@),
            text_views(measurements.cachegrind_texts@),
            e.scenario_name@,
        ),
{
    let now = crate::trusted::now_unix_nanos();
    let cutoff: i128 = if now < i128::MIN + HISTORY_WINDOW_NANOS {
        i128::MIN
    } else {
        now - HISTORY_WINDOW_NANOS
    };
    let historical_results = db.result_history(cutoff);
    let significance_thresholds = calculate_significance_thresholds(&historical_results);
    let ghost hist = history_of(old(db)@.runs, cutoff as int);
    let ghost tv = crate::analysis::threshold_views(significance_thresholds@);
    proof {
        assert(benchresult_views(historical_results@) == hist);
        assert forall|i: int|
            0 <= i < tv.len() implies significance_threshold_for(hist, (#[trigger] tv[i]).0)
            == Some(tv[i].1) by {
            assert(tv[i] == (significance_thresholds@[i].0@, significance_thresholds@[i].1));
        }
        assert forall|name: Seq<char>|
            (#[trigger] significance_threshold_for(hist, name)) is Some implies exists|i: int|
            0 <= i < tv.len() && (#[trigger] tv[i]).0 == name by {
            let i = choose|i: int|
                0 <= i < significance_thresholds@.len() && (#[trigger] significance_thresholds@[i]).0@
                    == name && significance_thresholds@[i].1
                    == significance_threshold_for(hist, name).unwrap();
            assert(tv[i].0 == name);
        }
        assert forall|i: int, j: int| 0 <= i < j < tv.len() implies tv[i].0 != tv[j].0 by {
            assert(tv[i].0 == significance_thresholds@[i].0@);
            assert(tv[j].0 == significance_thresholds@[j].0@);
        }
        assert(thresholds_table_for(hist, tv));
    }
    match compare_results(
        &measurements.baseline_results,
        &measurements.candidate_results,
        &significance_thresholds,
        &measurements.cachegrind_texts,
    ) {
        Err(e) => {
            proof {
                assert(thresholds_table_for(history_of(old(db)@.runs, cutoff as int), tv));
                assert(cache_err_post(
                    old(db)@,
                    result_views(measurements.baseline_results@),
                    result_views(measurements.candidate_results@),
                    text_views(measurements.cachegrind_texts@),
                    e.scenario_name@,
                ));
            }
            Err(e)
        },
        Ok((diffs, missing)) => {
            let ghost dv2 = diff_views(diffs@);
            let ghost mv2 = views_of(missing@);
            let stored_diffs = crate::db::copy_diffs(&diffs);
            let mut stored_missing: Vec<String> = Vec::new();
            let mut k: usize = 0;
            proof {
                assert(views_of(stored_missing@) =~= views_of(missing@).take(0));
            }
            while k < missing.len()
                invariant
                    k <= missing@.len(),
                    views_of(stored_missing@) == views_of(missing@).take(k as int),
                    views_of(missing@).len() == missing@.len(),
                decreases missing@.len() - k,
            {
                let ghost sm0 = stored_missing@;
                stored_missing.push(missing[k].clone());
                proof {
                    assert(views_of(stored_missing@) =~= views_of(sm0).push(missing@[k as int]@));
                    assert(views_of(missing@).take(k as int + 1) =~= views_of(missing@).take(
                        k as int,
                    ).push(missing@[k as int]@));
                }
                k += 1;
            }
            proof {
                assert(views_of(missing@).take(missing@.len() as int) =~= views_of(missing@));
            }
            let ghost smv = views_of(stored_missing@);
            let ghost sdv = diff_views(stored_diffs@);
            let b_sha = branches.baseline.commit_sha.clone();
            let c_sha = branches.candidate.commit_sha.clone();
            let ghost bshav = b_sha@;
            let ghost cshav = c_sha@;
            let cid = db.store_comparison_result(b_sha, c_sha, stored_missing, stored_diffs);
            let cr = CompareResult { diffs, scenarios_missing_in_baseline: missing };
            proof {
                assert(smv == mv2);
                assert(sdv == dv2);
                assert(diff_views(cr.diffs@) == dv2);
                assert(views_of(cr.scenarios_missing_in_baseline@) == mv2);
                assert(thresholds_table_for(history_of(old(db)@.runs, cutoff as int), tv));
                assert(compare_spec(
                    result_views(measurements.baseline_results@),
                    result_views(measurements.candidate_results@),
                    tv,
                    text_views(measurements.cachegrind_texts@),
                ) == Ok::<(Seq<crate::db::DiffModel>, Seq<Seq<char>>), Seq<char>>((dv2, mv2)));
                let t0 = choose|t: i128|
                    db@.comparisons == old(db)@.comparisons.push(
                        comparison_record(cid, t, bshav, cshav, smv, sdv),
                    );
                assert(db@.comparisons == old(db)@.comparisons.push(
                    comparison_record(
                        cid,
                        t0,
                        branches@.baseline.commit_sha,
                        branches@.candidate.commit_sha,
                        views_of(cr.scenarios_missing_in_baseline@),
                        diff_views(cr.diffs@),
                    ),
                ));
                assert(exists|id: u128, t: i128|
                    db@.comparisons == old(db)@.comparisons.push(
                        #[trigger] comparison_record(
                            id,
                            t,
                            branches@.baseline.commit_sha,
                            branches@.candidate.commit_sha,
                            views_of(cr.scenarios_missing_in_baseline@),
                            diff_views(cr.diffs@),
                        ),
                    ));
                assert(cache_ok_post(
                    old(db)@,
                    db@,
                    result_views(measurements.baseline_results@),
                    result_views(measurements.candidate_results@),
                    text_views(measurements.cachegrind_texts@),
                    branches@,
                    diff_views(cr.diffs@),
                    views_of(cr.scenarios_missing_in_baseline@),
                ));
            }
            Ok(cr)
        },
    }
}

/// Build the cachegrind-diff permalink prefix.
fn build_diff_url(app_base_url: &str, branches: &PrBranches) -> (r: String)
    ensures
        r@ == diff_url_text(
            app_base_url@,
            branches@.baseline.commit_sha,
            branches@.candidate.commit_sha,
        ),
{
    let mut s = String::new();
    s.append(app_base_url);
    s.append("/comparisons/");
    s.append(branches.baseline.commit_sha.as_str());
    s.append(":");
    s.append(branches.candidate.commit_sha.as_str());
    s.append("/cachegrind-diff");
    proof {
        assert(s@ =~= diff_url_text(
            app_base_url@,
            branches@.baseline.commit_sha,
            branches@.candidate.commit_sha,
        ));
    }
    s
}

/// Build the failure message for a missing cachegrind diff text.
fn build_missing_diff_error(e: &CompareError) -> (r: String)
    ensures
        r@ == missing_diff_error_text(e.scenario_name@),
{
    let mut s = String::new();
    s.append("missing cachegrind diff for scenario: ");
    s.append(e.scenario_name.as_str());
    proof {
        assert(s@ =~= missing_diff_error_text(e.scenario_name@));
    }
    s
}

/// The cached comparison the pipeline would find for these branches, if
/// the base branch is main.
pub open spec fn bench_pr_found(
    m: crate::db::DbModel,
    branches: crate::PrBranchesModel,
) -> Option<crate::db::ComparisonModel> {
    if branches.baseline.branch_name == "main"@ {
        find_comparison(m.comparisons, branches.baseline.commit_sha, branches.candidate.commit_sha)
    } else {
        None
    }
}

/// The permalink prefix the pipeline uses for these branches.
pub open spec fn bench_pr_url(base: Seq<char>, branches: crate::PrBranchesModel) -> Seq<char> {
    diff_url_text(base, branches.baseline.commit_sha, branches.candidate.commit_sha)
}

/// The planned body and action, when the step is a finished plan.
pub open spec fn done_plan(r: Result<BenchPrStep, DbError>) -> Option<(Seq<char>, CommentAction)> {
    match r {
        Ok(step) => match step {
            BenchPrStep::Done(plan) => Some((plan.body@, plan.action)),
            _ => None,
        },
        Err(_) => None,
    }
}

/// The planned body for a cached comparison: the report over the stored
/// diffs and the decoded missing-scenario list, plus checkout details.
pub open spec fn cached_body_ok(
    body: Seq<char>,
    branches: crate::PrBranchesModel,
    cm: crate::db::ComparisonModel,
    url: Seq<char>,
) -> bool {
    let no_failure = None::<(Seq<char>, Seq<LogModel>, Seq<LogModel>)>;
    &&& (cm.missing_json is None ==> body == truncated(
        comment_text(branches, cm.diffs, Seq::empty(), no_failure, url),
    ))
    &&& (cm.missing_json matches Some(j) ==> forall|v: Seq<Seq<char>>|
        j == crate::trusted::json_strlist_of(v) ==> body == truncated(
            comment_text(branches, cm.diffs, v, no_failure, url),
        ))
}

/// The planned body and stored state for a fresh comparison: either the
/// comparison was stored and the body reports exactly its diffs and missing
/// list, or the comparison failed on a missing cachegrind text, the store is
/// untouched, and the body reports the failure with the captured logs.
pub open spec fn fresh_outcome_ok(
    old_db: crate::db::DbModel,
    new_db: crate::db::DbModel,
    body: Seq<char>,
    branches: crate::PrBranchesModel,
    candidate_logs: Seq<LogModel>,
    base_logs: Seq<LogModel>,
    url: Seq<char>,
) -> bool {
    let no_failure = None::<(Seq<char>, Seq<LogModel>, Seq<LogModel>)>;
    ||| (exists|cm: crate::db::ComparisonModel, v: Seq<Seq<char>>|
        new_db.comparisons == old_db.comparisons.push(cm) && cm.baseline_commit
            == branches.baseline.commit_sha && cm.candidate_commit == branches.candidate.commit_sha
            && cm.missing_json == crate::db::missing_json_of(v) && body == truncated(
            #[trigger] comment_text(branches, cm.diffs, v, no_failure, url),
        ))
    ||| (new_db == old_db && exists|name: Seq<char>|
        body == truncated(
            #[trigger] comment_text(
                branches,
                Seq::empty(),
                Seq::empty(),
                Some((missing_diff_error_text(name), candidate_logs, base_logs)),
                url,
            ),
        ))
}

/// One step of the bench pipeline for a pull request. Requests against a
/// non-main base are out of scope. A cached comparison for the commit pair
/// is reused; otherwise the caller is asked once for measurements, and the
/// fresh comparison is stored before the comment is planned. The planned
/// comment updates the remembered comment for the pull request when one
/// exists, and is created anew otherwise; its body carries the report, or
/// the failure and its logs; the commit status ends in success either way.
pub fn bench_pr(
    db: &mut Db,
    pr_number: u64,
    branches: &PrBranches,
    app_base_url: &str,
    measurements: Option<MeasurementOutcome>,
) -> (r: Result<BenchPrStep, DbError>)
    requires
        old(db).wf(),
    ensures
        final(db).wf(),
        final(db)@.events == old(db)@.events,
        final(db)@.jobs == old(db)@.jobs,
        final(db)@.runs == old(db)@.runs,
        final(db)@.result_comments == old(db)@.result_comments,
        branches@.baseline.branch_name != "main"@ ==> (r matches Ok(step) && step is NotApplicable
            && final(db)@ == old(db)@),
        bench_pr_found(old(db)@, branches@) matches Some(cm) ==> (final(db)@ == old(db)@ && (
        done_plan(r) matches Some(p) && p.1 == comment_action_for(
            old(db)@.result_comments,
            pr_number,
        ) && cached_body_ok(p.0, branches@, cm, bench_pr_url(app_base_url@, branches@)))),
        branches@.baseline.branch_name == "main"@ && bench_pr_found(old(db)@, branches@) is None
            && measurements is None ==> (r matches Ok(step) && step is NeedMeasurements && final(db)@ == old(db)@),
        ({
            let cond = branches@.baseline.branch_name == "main"@ && bench_pr_found(
                old(db)@,
                branches@,
            ) is None;
            let url = bench_pr_url(app_base_url@, branches@);
            match measurements {
                None => true,
                Some(m) => match m.outcome {
                    Err(msg) => cond ==> (final(db)@ == old(db)@ && (done_plan(r) matches Some(p)
                        && p.1 == comment_action_for(old(db)@.result_comments, pr_number) && p.0
                        == truncated(
                        comment_text(
                            branches@,
                            Seq::empty(),
                            Seq::empty(),
                            Some((msg@, log_views(m.logs.candidate@), log_views(m.logs.base@))),
                            url,
                        ),
                    ))),
                    Ok(_) => cond ==> (done_plan(r) matches Some(p) && p.1 == comment_action_for(
                        old(db)@.result_comments,
                        pr_number,
                    ) && fresh_outcome_ok(
                        old(db)@,
                        final(db)@,
                        p.0,
                        branches@,
                        log_views(m.logs.candidate@),
                        log_views(m.logs.base@),
                        url,
                    )),
                },
            }
        }),
{
    if !str_eq(branches.baseline.branch_name.as_str(), "main") {
        return Ok(BenchPrStep::NotApplicable);
    }
    let ghost url_v = bench_pr_url(app_base_url@, branches@);
    let cached = match db.comparison_result(
        branches.baseline.commit_sha.as_str(),
        branches.candidate.commit_sha.as_str(),
    ) {
        Ok(c) => c,
        Err(e) => {
            proof {
                assert(false);
            }
            return Err(e);
        },
    };
    match cached {
        Some(res) => {
            let ghost cm = bench_pr_found(old(db)@, branches@).unwrap();
            let ghost rdv = diff_views(res.diffs@);
            let ghost rmv = views_of(res.scenarios_missing_in_baseline@);
            proof {
                if cm.missing_json is None {
                    assert(rmv =~= Seq::<Seq<char>>::empty());
                }
            }
            let url = build_diff_url(app_base_url, branches);
            let mut comment = (BenchPrResult { result: Ok(res), branches: branches.duplicate() })
                .into_markdown_comment(url.as_str());
            maybe_truncate_comment(&mut comment);
            let action = match db.result_comment_id(pr_number) {
                Some(comment_id) => CommentAction::UpdateComment { comment_id },
                None => CommentAction::CreateComment,
            };
            proof {
                assert(comment@ == truncated(
                    comment_text(
                        branches@,
                        cm.diffs,
                        rmv,
                        None::<(Seq<char>, Seq<LogModel>, Seq<LogModel>)>,
                        url_v,
                    ),
                ));
                if cm.missing_json is Some {
                    let j = cm.missing_json.unwrap();
                    assert forall|v: Seq<Seq<char>>|
                        j == crate::trusted::json_strlist_of(v) implies comment@ == truncated(
                        comment_text(
                            branches@,
                            cm.diffs,
                            v,
                            None::<(Seq<char>, Seq<LogModel>, Seq<LogModel>)>,
                            url_v,
                        ),
                    ) by {
                        assert(rmv == v);
                    }
                }
            }
            Ok(BenchPrStep::Done(CommentPlan { body: comment, action }))
        },
        None => {
            match measurements {
                None => Ok(BenchPrStep::NeedMeasurements),
                Some(m) => {
                    let ghost clv = log_views(m.logs.candidate@);
                    let ghost blv = log_views(m.logs.base@);
                    match m.outcome {
                        Err(msg) => {
                            let ghost msgv = msg@;
                            let result: Result<CompareResult, BenchPrError> = Err(
                                BenchPrError { error: msg, logs: m.logs },
                            );
                            let url = build_diff_url(app_base_url, branches);
                            let mut comment = (BenchPrResult {
                                result,
                                branches: branches.duplicate(),
                            }).into_markdown_comment(url.as_str());
                            maybe_truncate_comment(&mut comment);
                            let action = match db.result_comment_id(pr_number) {
                                Some(comment_id) => CommentAction::UpdateComment { comment_id },
                                None => CommentAction::CreateComment,
                            };
                            proof {
                                assert(comment@ == truncated(
                                    comment_text(
                                        branches@,
                                        Seq::empty(),
                                        Seq::empty(),
                                        Some((msgv, clv, blv)),
                                        url_v,
                                    ),
                                ));
                            }
                            Ok(BenchPrStep::Done(CommentPlan { body: comment, action }))
                        },
                        Ok(ms) => {
                            match bench_pr_and_cache_results(db, branches, &ms) {
                                Ok(cr) => {
                                    let ghost crdv = diff_views(cr.diffs@);
                                    let ghost crmv = views_of(cr.scenarios_missing_in_baseline@);
                                    let url = build_diff_url(app_base_url, branches);
                                    let mut comment = (BenchPrResult {
                                        result: Ok(cr),
                                        branches: branches.duplicate(),
                                    }).into_markdown_comment(url.as_str());
                                    maybe_truncate_comment(&mut comment);
                                    let action = match db.result_comment_id(pr_number) {
                                        Some(comment_id) => CommentAction::UpdateComment {
                                            comment_id,
                                        },
                                        None => CommentAction::CreateComment,
                                    };
                                    proof {
                                        let (id0, t0) = choose|id: u128, t: i128|
                                            db@.comparisons == old(db)@.comparisons.push(
                                                comparison_record(
                                                    id,
                                                    t,
                                                    branches@.baseline.commit_sha,
                                                    branches@.candidate.commit_sha,
                                                    crmv,
                                                    crdv,
                                                ),
                                            );
                                        let cm2 = comparison_record(
                                            id0,
                                            t0,
                                            branches@.baseline.commit_sha,
                                            branches@.candidate.commit_sha,
                                            crmv,
                                            crdv,
                                        );
                                        assert(db@.comparisons == old(db)@.comparisons.push(cm2)
                                            && cm2.baseline_commit == branches@.baseline.commit_sha
                                            && cm2.candidate_commit
                                            == branches@.candidate.commit_sha && cm2.missing_json
                                            == crate::db::missing_json_of(crmv) && comment@
                                            == truncated(
                                            comment_text(
                                                branches@,
                                                cm2.diffs,
                                                crmv,
                                                None::<(Seq<char>, Seq<LogModel>, Seq<LogModel>)>,
                                                url_v,
                                            ),
                                        ));
                                        assert(fresh_outcome_ok(
                                            old(db)@,
                                            db@,
                                            comment@,
                                            branches@,
                                            clv,
                                            blv,
                                            url_v,
                                        ));
                                    }
                                    Ok(BenchPrStep::Done(CommentPlan { body: comment, action }))
                                },
                                Err(e) => {
                                    let ghost namev = e.scenario_name@;
                                    let result: Result<CompareResult, BenchPrError> = Err(
                                        BenchPrError {
                                            error: build_missing_diff_error(&e),
                                            logs: m.logs,
                                        },
                                    );
                                    let url = build_diff_url(app_base_url, branches);
                                    let mut comment = (BenchPrResult {
                                        result,
                                        branches: branches.duplicate(),
                                    }).into_markdown_comment(url.as_str());
                                    maybe_truncate_comment(&mut comment);
                                    let action = match db.result_comment_id(pr_number) {
                                        Some(comment_id) => CommentAction::UpdateComment {
                                            comment_id,
                                        },
                                        None => CommentAction::CreateComment,
                                    };
                                    proof {
                                        assert(comment@ == truncated(
                                            comment_text(
                                                branches@,
                                                Seq::empty(),
                                                Seq::empty(),
                                                Some((missing_diff_error_text(namev), clv, blv)),
                                                url_v,
                                            ),
                                        ));
                                        assert(fresh_outcome_ok(
                                            old(db)@,
                                            db@,
                                            comment@,
                                            branches@,
                                            clv,
                                            blv,
                                            url_v,
                                        ));
                                    }
                                    Ok(BenchPrStep::Done(CommentPlan { body: comment, action }))
                                },
                            }
                        },
                    }
                },
            }
        },
    }
}

} // verus!
