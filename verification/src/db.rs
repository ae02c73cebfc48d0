//! The persistence store: a transactional, key-addressed store for queued
//! webhook events, jobs, bench runs, comparison results and the mapping from
//! pull requests to result comments.
//!
//! Events, jobs and bench runs are kept ordered by creation time, with ties
//! resolved by insertion order, so the drain order of the queue and the order
//! of the result history are part of each operation's contract.
use vstd::prelude::*;

use crate::order::{insert_by_key, lemma_insert_by_key_at, lemma_insert_by_key_sorted,
    sorted_by_key};
use crate::trusted::{fresh_uuid, json_decode_string_list, json_encode_string_list,
    json_strlist_of, now_unix_nanos, views_of};
use vstd::string::StrSliceExecFns;

verus! {

/// Errors surfaced by store operations.
#[derive(Clone, Copy, Debug, PartialEq, Eq, Structural)]
pub enum DbError {
    /// The requested record does not exist.
    NotFound,
    /// A persisted value could not be decoded.
    DataCorruption,
}

/// The kind of measurement a scenario diff carries. Only instruction counts
/// are defined; the encoding reserves space for future kinds.
#[derive(Clone, Copy, Debug, PartialEq, Eq, Structural)]
pub enum ScenarioKind {
    Icount,
}

impl ScenarioKind {
    /// The integer under which this kind is persisted.
    pub fn as_i64(&self) -> (r: i64)
        ensures
            r == 0,
    {
        match self {
            ScenarioKind::Icount => 0i64,
        }
    }

    /// Decode a persisted kind; unknown encodings are rejected rather than
    /// silently widened.
    pub fn try_from(value: i64) -> (r: Result<ScenarioKind, DbError>)
        ensures
            value == 0 ==> r == Ok::<ScenarioKind, DbError>(ScenarioKind::Icount),
            value != 0 ==> r == Err::<ScenarioKind, DbError>(DbError::DataCorruption),
    {
        if value == 0 {
            Ok(ScenarioKind::Icount)
        } else {
            Err(DbError::DataCorruption)
        }
    }
}

/// A webhook waiting to be handled.
#[derive(Debug)]
pub struct QueuedEvent {
    pub id: u128,
    pub job_id: Option<u128>,
    pub event: String,
    pub payload: Vec<u8>,
    pub created_utc: i128,
}

/// Mathematical value of a queued event.
#[verifier::ext_equal]
pub ghost struct EventModel {
    pub id: u128,
    pub job_id: Option<u128>,
    pub event: Seq<char>,
    pub payload: Seq<u8>,
    pub created_utc: int,
}

impl View for QueuedEvent {
    type V = EventModel;

    open spec fn view(&self) -> EventModel {
        EventModel {
            id: self.id,
            job_id: self.job_id,
            event: self.event@,
            payload: self.payload@,
            created_utc: self.created_utc as int,
        }
    }
}

/// A job bound to a queued event. `finished_utc` stays absent until the job
/// is stamped finished.
#[derive(Clone, Copy, Debug, PartialEq, Eq, Structural)]
pub struct BenchJob {
    pub id: u128,
    pub event_queued_utc: i128,
    pub created_utc: i128,
    pub finished_utc: Option<i128>,
}

/// One measurement of a named scenario. Values are fixed-point integers in
/// millionths (see [`crate::SCALE`]).
#[derive(Debug)]
pub struct BenchResult {
    pub name: String,
    pub result: u64,
}

impl View for BenchResult {
    type V = (Seq<char>, u64);

    open spec fn view(&self) -> (Seq<char>, u64) {
        (self.name@, self.result)
    }
}

/// A single-revision measurement set.
struct BenchRun {
    id: u128,
    created_utc: i128,
    results: Vec<(String, u64)>,
}

/// Mathematical value of a bench run.
#[verifier::ext_equal]
pub ghost struct RunModel {
    pub id: u128,
    pub created_utc: int,
    pub results: Seq<(Seq<char>, u64)>,
}

impl View for BenchRun {
    type V = RunModel;

    closed spec fn view(&self) -> RunModel {
        RunModel {
            id: self.id,
            created_utc: self.created_utc as int,
            results: result_views(self.results@),
        }
    }
}

/// The views of a list of queued events.
pub open spec fn event_views(s: Seq<QueuedEvent>) -> Seq<EventModel> {
    s.map_values(|e: QueuedEvent| e@)
}

/// The views of a list of named measurements (as stored in a bench run).
pub open spec fn benchresult_views(s: Seq<BenchResult>) -> Seq<(Seq<char>, u64)> {
    s.map_values(|b: BenchResult| b@)
}

/// The views of a list of named measurements.
pub open spec fn result_views(s: Seq<(String, u64)>) -> Seq<(Seq<char>, u64)> {
    s.map_values(|p: (String, u64)| (p.0@, p.1))
}

/// A diff for one scenario, comparing benchmark results between two
/// revisions. Results and the significance threshold are fixed-point
/// integers in millionths.
#[derive(Debug, PartialEq)]
pub struct ScenarioDiff {
    pub scenario_name: String,
    pub scenario_kind: ScenarioKind,
    pub baseline_result: u64,
    pub candidate_result: u64,
    pub significance_threshold: u64,
    pub cachegrind_diff: String,
}

/// Mathematical value of a scenario diff.
#[verifier::ext_equal]
pub ghost struct DiffModel {
    pub scenario_name: Seq<char>,
    pub scenario_kind: ScenarioKind,
    pub baseline_result: u64,
    pub candidate_result: u64,
    pub significance_threshold: u64,
    pub cachegrind_diff: Seq<char>,
}

impl View for ScenarioDiff {
    type V = DiffModel;

    open spec fn view(&self) -> DiffModel {
        DiffModel {
            scenario_name: self.scenario_name@,
            scenario_kind: self.scenario_kind,
            baseline_result: self.baseline_result,
            candidate_result: self.candidate_result,
            significance_threshold: self.significance_threshold,
            cachegrind_diff: self.cachegrind_diff@,
        }
    }
}

/// The views of a list of scenario diffs.
pub open spec fn diff_views(s: Seq<ScenarioDiff>) -> Seq<DiffModel> {
    s.map_values(|d: ScenarioDiff| d@)
}

/// Candidate minus baseline.
pub open spec fn diff_of(d: DiffModel) -> int {
    d.candidate_result - d.baseline_result
}

/// The value that stands for an infinite diff ratio (a zero baseline).
pub const RATIO_INF: i128 = i128::MAX;

/// The diff ratio in millionths: `(candidate - baseline) * SCALE / baseline`,
/// rounded towards zero. A zero baseline gives an infinite ratio when the
/// candidate is larger, and zero when both sides are zero.
pub open spec fn ratio_of(d: DiffModel) -> int {
    if d.baseline_result > 0 {
        if d.candidate_result >= d.baseline_result {
            ((d.candidate_result - d.baseline_result) * crate::SCALE) / d.baseline_result as int
        } else {
            -(((d.baseline_result - d.candidate_result) * crate::SCALE) / d.baseline_result as int)
        }
    } else if d.candidate_result > 0 {
        RATIO_INF as int
    } else {
        0
    }
}

impl ScenarioDiff {
    /// Candidate minus baseline.
    pub fn diff(&self) -> (r: i128)
        ensures
            r == diff_of(self@),
    {
        self.candidate_result as i128 - self.baseline_result as i128
    }

    /// The diff ratio in millionths; see [`ratio_of`].
    pub fn diff_ratio(&self) -> (r: i128)
        ensures
            r == ratio_of(self@),
    {
        if self.baseline_result > 0 {
            if self.candidate_result >= self.baseline_result {
                proof {
                    lemma_ratio_num_bound(
                        (self.candidate_result - self.baseline_result) as u128,
                        self.baseline_result as u128,
                    );
                }
                let num: u128 = (self.candidate_result - self.baseline_result) as u128
                    * crate::SCALE as u128;
                (num / self.baseline_result as u128) as i128
            } else {
                proof {
                    lemma_ratio_num_bound(
                        (self.baseline_result - self.candidate_result) as u128,
                        self.baseline_result as u128,
                    );
                }
                let num: u128 = (self.baseline_result - self.candidate_result) as u128
                    * crate::SCALE as u128;
                -((num / self.baseline_result as u128) as i128)
            }
        } else if self.candidate_result > 0 {
            RATIO_INF
        } else {
            0
        }
    }

    /// A field-for-field copy.
    pub fn duplicate(&self) -> (r: ScenarioDiff)
        ensures
            r@ == self@,
    {
        ScenarioDiff {
            scenario_name: self.scenario_name.clone(),
            scenario_kind: self.scenario_kind,
            baseline_result: self.baseline_result,
            candidate_result: self.candidate_result,
            significance_threshold: self.significance_threshold,
            cachegrind_diff: self.cachegrind_diff.clone(),
        }
    }
}

/// The scaled numerator of a diff ratio stays within bounds.
pub(crate) proof fn lemma_ratio_num_bound(delta: u128, base: u128)
    requires
        delta <= u64::MAX,
        1 <= base,
    ensures
        (delta as int) * (crate::SCALE as int) <= (u64::MAX as int) * (crate::SCALE as int)
            < u128::MAX,
        ((delta as int) * (crate::SCALE as int)) / (base as int) <= (u64::MAX as int) * (
        crate::SCALE as int),
{
    assert((delta as int) * (crate::SCALE as int) <= (u64::MAX as int) * (crate::SCALE as int))
        by (nonlinear_arith)
        requires
            delta <= u64::MAX,
    ;
    vstd::arithmetic::div_mod::lemma_div_is_ordered(
        (delta as int) * (crate::SCALE as int),
        (u64::MAX as int) * (crate::SCALE as int),
        base as int,
    );
    vstd::arithmetic::div_mod::lemma_div_multiples_vanish(
        u64::MAX as int,
        crate::SCALE as int,
    );
}

/// The results of a comparison between two revisions.
pub struct CompareResult {
    /// The diffs, per scenario.
    pub diffs: Vec<ScenarioDiff>,
    /// Benchmark scenarios present in the candidate but missing in the
    /// baseline.
    pub scenarios_missing_in_baseline: Vec<String>,
}

/// A stored comparison between two commits.
struct ComparisonRun {
    id: u128,
    created_utc: i128,
    baseline_commit: String,
    candidate_commit: String,
    missing_json: Option<String>,
    diffs: Vec<ScenarioDiff>,
}

/// Mathematical value of a stored comparison. An empty missing-scenario list
/// is stored as an absent value, not as an empty JSON array.
#[verifier::ext_equal]
pub ghost struct ComparisonModel {
    pub id: u128,
    pub created_utc: int,
    pub baseline_commit: Seq<char>,
    pub candidate_commit: Seq<char>,
    pub missing_json: Option<Seq<char>>,
    pub diffs: Seq<DiffModel>,
}

impl View for ComparisonRun {
    type V = ComparisonModel;

    closed spec fn view(&self) -> ComparisonModel {
        ComparisonModel {
            id: self.id,
            created_utc: self.created_utc as int,
            baseline_commit: self.baseline_commit@,
            candidate_commit: self.candidate_commit@,
            missing_json: match self.missing_json {
                Some(ref j) => Some(j@),
                None => None,
            },
            diffs: diff_views(self.diffs@),
        }
    }
}

/// The mapping from a pull-request number to the identifier of the comment
/// used to publish results.
#[derive(Clone, Copy, Debug, PartialEq, Eq, Structural)]
pub struct ResultComment {
    pub pr_number: u64,
    pub comment_id: u64,
}

/// Mathematical value of the whole store.
#[verifier::ext_equal]
pub ghost struct DbModel {
    pub events: Seq<EventModel>,
    pub jobs: Seq<BenchJob>,
    pub runs: Seq<RunModel>,
    pub comparisons: Seq<ComparisonModel>,
    pub result_comments: Seq<ResultComment>,
}

/// Key functions for the time-ordered tables.
pub open spec fn event_time_fn() -> spec_fn(EventModel) -> int {
    |e: EventModel| e.created_utc
}

pub open spec fn job_time_fn() -> spec_fn(BenchJob) -> int {
    |j: BenchJob| j.created_utc as int
}

pub open spec fn run_time_fn() -> spec_fn(RunModel) -> int {
    |r: RunModel| r.created_utc
}

/// A freshly enqueued event: no job bound yet.
pub open spec fn event_record(id: u128, event: Seq<char>, payload: Seq<u8>, t: i128) -> EventModel {
    EventModel { id, job_id: None, event, payload, created_utc: t as int }
}

/// A freshly created job: not finished yet.
pub open spec fn job_record(id: u128, event_queued_utc: i128, t: i128) -> BenchJob {
    BenchJob { id, event_queued_utc, created_utc: t, finished_utc: None }
}

/// A freshly stored bench run.
pub open spec fn run_record(id: u128, t: i128, results: Seq<(Seq<char>, u64)>) -> RunModel {
    RunModel { id, created_utc: t as int, results }
}

/// How an empty or non-empty missing-scenario list is persisted.
pub open spec fn missing_json_of(v: Seq<Seq<char>>) -> Option<Seq<char>> {
    if v.len() == 0 {
        None
    } else {
        Some(json_strlist_of(v))
    }
}

/// A freshly stored comparison.
pub open spec fn comparison_record(
    id: u128,
    t: i128,
    baseline_commit: Seq<char>,
    candidate_commit: Seq<char>,
    missing: Seq<Seq<char>>,
    diffs: Seq<DiffModel>,
) -> ComparisonModel {
    ComparisonModel {
        id,
        created_utc: t as int,
        baseline_commit,
        candidate_commit,
        missing_json: missing_json_of(missing),
        diffs,
    }
}

/// Binding a job to its event stamps the event's `job_id`.
pub open spec fn set_event_job(s: Seq<EventModel>, event_id: u128, job_id: u128) -> Seq<
    EventModel,
> {
    s.map_values(
        |e: EventModel|
            if e.id == event_id {
                EventModel { job_id: Some(job_id), ..e }
            } else {
                e
            },
    )
}

/// Stamping a job finished sets its `finished_utc`.
pub open spec fn finish_jobs(s: Seq<BenchJob>, id: u128, t: i128) -> Seq<BenchJob> {
    s.map_values(
        |j: BenchJob|
            if j.id == id {
                BenchJob { finished_utc: Some(t), ..j }
            } else {
                j
            },
    )
}

/// Deleting an event removes every record under that identifier.
pub open spec fn events_without(s: Seq<EventModel>, id: u128) -> Seq<EventModel>
    decreases s.len(),
{
    if s.len() == 0 {
        Seq::empty()
    } else if s.last().id == id {
        events_without(s.drop_last(), id)
    } else {
        events_without(s.drop_last(), id).push(s.last())
    }
}

/// Deletion keeps the remaining events sorted, and their keys bounded by
/// the last element's key.
proof fn lemma_events_without_sorted(s: Seq<EventModel>, id: u128)
    requires
        sorted_by_key(s, event_time_fn()),
    ensures
        sorted_by_key(events_without(s, id), event_time_fn()),
        s.len() > 0 ==> forall|k: int|
            0 <= k < events_without(s, id).len() ==> (#[trigger] events_without(
                s,
                id,
            )[k]).created_utc <= s.last().created_utc,
    decreases s.len(),
{
    if s.len() > 0 {
        let dl = s.drop_last();
        assert(sorted_by_key(dl, event_time_fn()));
        lemma_events_without_sorted(dl, id);
        let w = events_without(s, id);
        let wd = events_without(dl, id);
        if dl.len() > 0 {
            assert(event_time_fn()(dl.last()) <= event_time_fn()(s.last()));
        }
        if s.last().id == id {
            assert(w == wd);
        } else {
            assert(w == wd.push(s.last()));
            assert forall|a: int, b: int| 0 <= a < b < w.len() implies event_time_fn()(
                w[a],
            ) <= event_time_fn()(w[b]) by {
                if b < wd.len() {
                    assert(w[a] == wd[a] && w[b] == wd[b]);
                } else {
                    assert(w[b] == s.last());
                    assert(w[a] == wd[a]);
                }
            }
        }
    }
}

/// The first job stored under `id`.
pub open spec fn find_job(s: Seq<BenchJob>, id: u128) -> Option<BenchJob>
    decreases s.len(),
{
    if s.len() == 0 {
        None
    } else if s[0].id == id {
        Some(s[0])
    } else {
        find_job(s.drop_first(), id)
    }
}

/// The first comparison stored under the ordered commit pair.
pub open spec fn find_comparison(
    s: Seq<ComparisonModel>,
    baseline_commit: Seq<char>,
    candidate_commit: Seq<char>,
) -> Option<ComparisonModel>
    decreases s.len(),
{
    if s.len() == 0 {
        None
    } else if s[0].baseline_commit == baseline_commit && s[0].candidate_commit
        == candidate_commit {
        Some(s[0])
    } else {
        find_comparison(s.drop_first(), baseline_commit, candidate_commit)
    }
}

/// The first comment identifier stored for a pull request.
pub open spec fn find_comment(s: Seq<ResultComment>, pr_number: u64) -> Option<u64>
    decreases s.len(),
{
    if s.len() == 0 {
        None
    } else if s[0].pr_number == pr_number {
        Some(s[0].comment_id)
    } else {
        find_comment(s.drop_first(), pr_number)
    }
}

/// The text of the first diff stored under `name`.
pub open spec fn diff_text_for(diffs: Seq<DiffModel>, name: Seq<char>) -> Option<Seq<char>>
    decreases diffs.len(),
{
    if diffs.len() == 0 {
        None
    } else if diffs[0].scenario_name == name {
        Some(diffs[0].cachegrind_diff)
    } else {
        diff_text_for(diffs.drop_first(), name)
    }
}

/// The cachegrind diff text for one scenario within the first comparison of
/// the commit pair that carries that scenario.
pub open spec fn cachegrind_lookup(
    s: Seq<ComparisonModel>,
    baseline_commit: Seq<char>,
    candidate_commit: Seq<char>,
    name: Seq<char>,
) -> Option<Seq<char>>
    decreases s.len(),
{
    if s.len() == 0 {
        None
    } else if s[0].baseline_commit == baseline_commit && s[0].candidate_commit == candidate_commit
        && diff_text_for(s[0].diffs, name) is Some {
        diff_text_for(s[0].diffs, name)
    } else {
        cachegrind_lookup(s.drop_first(), baseline_commit, candidate_commit, name)
    }
}

/// Every result belonging to a run created strictly after `cutoff`, in run
/// order.
pub open spec fn history_of(runs: Seq<RunModel>, cutoff: int) -> Seq<(Seq<char>, u64)>
    decreases runs.len(),
{
    if runs.len() == 0 {
        Seq::empty()
    } else {
        history_of(runs.drop_last(), cutoff) + if runs.last().created_utc > cutoff {
            runs.last().results
        } else {
            Seq::empty()
        }
    }
}

/// A stored comparison only ever carries the JSON encoding of a non-empty
/// scenario-name list in `missing_json`.
pub open spec fn comparison_wf(c: ComparisonModel) -> bool {
    c.missing_json matches Some(j) ==> exists|v: Seq<Seq<char>>|
        v.len() > 0 && j == json_strlist_of(v)
}

/// Well-formedness of the store: the time-ordered tables are sorted, and
/// persisted JSON is canonical.
pub open spec fn db_wf(m: DbModel) -> bool {
    &&& sorted_by_key(m.events, event_time_fn())
    &&& sorted_by_key(m.jobs, job_time_fn())
    &&& sorted_by_key(m.runs, run_time_fn())
    &&& forall|i: int| 0 <= i < m.comparisons.len() ==> comparison_wf(#[trigger] m.comparisons[i])
}

/// The persistence store.
pub struct Db {
    events: Vec<QueuedEvent>,
    jobs: Vec<BenchJob>,
    runs: Vec<BenchRun>,
    comparisons: Vec<ComparisonRun>,
    result_comments: Vec<ResultComment>,
}

impl View for Db {
    type V = DbModel;

    closed spec fn view(&self) -> DbModel {
        DbModel {
            events: event_views(self.events@),
            jobs: self.jobs@,
            runs: self.runs@.map_values(|r: BenchRun| r@),
            comparisons: self.comparisons@.map_values(|c: ComparisonRun| c@),
            result_comments: self.result_comments@,
        }
    }
}

impl Db {
    pub open spec fn wf(&self) -> bool {
        db_wf(self@)
    }

    /// An empty store.
    pub fn new() -> (r: Db)
        ensures
            r.wf(),
            r@ == (DbModel {
                events: Seq::empty(),
                jobs: Seq::empty(),
                runs: Seq::empty(),
                comparisons: Seq::empty(),
                result_comments: Seq::empty(),
            }),
    {
        let db = Db {
            events: Vec::new(),
            jobs: Vec::new(),
            runs: Vec::new(),
            comparisons: Vec::new(),
            result_comments: Vec::new(),
        };
        proof {
            assert(db@ =~~= (DbModel {
                events: Seq::empty(),
                jobs: Seq::empty(),
                runs: Seq::empty(),
                comparisons: Seq::empty(),
                result_comments: Seq::empty(),
            }));
        }
        db
    }

    /// Store an incoming webhook; it is placed after every event whose
    /// creation time is no later than its own.
    pub fn enqueue_event(&mut self, event: &str, payload: &[u8]) -> (r: u128)
        requires
            old(self).wf(),
        ensures
            final(self).wf(),
            exists|t: i128|
                final(self)@.events == insert_by_key(
                    old(self)@.events,
                    #[trigger] event_record(r, event@, payload@, t),
                    event_time_fn(),
                ),
            final(self)@.jobs == old(self)@.jobs,
            final(self)@.runs == old(self)@.runs,
            final(self)@.comparisons == old(self)@.comparisons,
            final(self)@.result_comments == old(self)@.result_comments,
    {
        let id = fresh_uuid();
        let now = now_unix_nanos();
        self.enqueue_at(id, event, payload, now);
        proof {
            assert(self@.events == insert_by_key(
                old(self)@.events,
                event_record(id, event@, payload@, now),
                event_time_fn(),
            ));
        }
        id
    }

    fn enqueue_at(&mut self, id: u128, event: &str, payload: &[u8], t: i128)
        requires
            old(self).wf(),
        ensures
            final(self).wf(),
            final(self)@ == (DbModel {
                events: insert_by_key(
                    old(self)@.events,
                    event_record(id, event@, payload@, t),
                    event_time_fn(),
                ),
                ..old(self)@
            }),
    {
        let mut i: usize = self.events.len();
        while i > 0 && self.events[i - 1].created_utc > t
            invariant
                i <= self.events.len(),
                forall|j: int|
                    i <= j < self.events@.len() ==> self.events@[j].created_utc > t,
                *self == *old(self),
            decreases i,
        {
            i -= 1;
        }
        let e = QueuedEvent {
            id,
            job_id: None,
            event: event.to_owned(),
            payload: vstd::slice::slice_to_vec(payload),
            created_utc: t,
        };
        proof {
            let m = old(self)@.events;
            let em = event_record(id, event@, payload@, t);
            lemma_insert_by_key_at(m, em, event_time_fn(), i as int);
            lemma_insert_by_key_sorted(m, em, event_time_fn(), i as int);
        }
        self.events.insert(i, e);
        proof {
            assert(self@.events =~= old(self)@.events.insert(
                i as int,
                event_record(id, event@, payload@, t),
            ));
            assert(self@ == (DbModel {
                events: insert_by_key(
                    old(self)@.events,
                    event_record(id, event@, payload@, t),
                    event_time_fn(),
                ),
                ..old(self)@
            }));
        }
    }

    /// Retrieve the next incoming webhook to handle: the event with the
    /// minimum creation time, ties broken by insertion order.
    pub fn next_queued_event(&self) -> (r: Result<QueuedEvent, DbError>)
        requires
            self.wf(),
        ensures
            self@.events.len() == 0 ==> r == Err::<QueuedEvent, DbError>(DbError::NotFound),
            self@.events.len() > 0 ==> (r matches Ok(e) && e@ == self@.events[0]),
    {
        if self.events.len() == 0 {
            Err(DbError::NotFound)
        } else {
            let e = &self.events[0];
            Ok(QueuedEvent {
                id: e.id,
                job_id: e.job_id,
                event: e.event.clone(),
                payload: copy_bytes(&e.payload),
                created_utc: e.created_utc,
            })
        }
    }

    /// Exact number of queued events.
    pub fn queued_event_count(&self) -> (r: usize)
        ensures
            r == self@.events.len(),
    {
        self.events.len()
    }

    /// Create a new job and bind it to the given event, atomically: the job
    /// row and the event's `job_id` stamp appear together.
    pub fn new_job_for_event(&mut self, event_id: u128, event_created_utc: i128) -> (r: u128)
        requires
            old(self).wf(),
        ensures
            final(self).wf(),
            exists|t: i128|
                final(self)@.jobs == insert_by_key(
                    old(self)@.jobs,
                    #[trigger] job_record(r, event_created_utc, t),
                    job_time_fn(),
                ),
            final(self)@.events == set_event_job(old(self)@.events, event_id, r),
            final(self)@.runs == old(self)@.runs,
            final(self)@.comparisons == old(self)@.comparisons,
            final(self)@.result_comments == old(self)@.result_comments,
    {
        let id = fresh_uuid();
        let now = now_unix_nanos();

        // Insert the job, keeping the job table ordered by creation time.
        let mut i: usize = self.jobs.len();
        while i > 0 && self.jobs[i - 1].created_utc > now
            invariant
                i <= self.jobs.len(),
                forall|j: int| i <= j < self.jobs@.len() ==> self.jobs@[j].created_utc > now,
                *self == *old(self),
            decreases i,
        {
            i -= 1;
        }
        let job = BenchJob {
            id,
            event_queued_utc: event_created_utc,
            created_utc: now,
            finished_utc: None,
        };
        proof {
            lemma_insert_by_key_at(old(self)@.jobs, job, job_time_fn(), i as int);
            lemma_insert_by_key_sorted(old(self)@.jobs, job, job_time_fn(), i as int);
        }
        self.jobs.insert(i, job);

        // Stamp the event with the job identifier.
        let ghost events0 = self@.events;
        let mut k: usize = 0;
        while k < self.events.len()
            invariant
                k <= self.events@.len(),
                self.events@.len() == events0.len(),
                forall|j: int|
                    k <= j < events0.len() ==> self.events@[j]@ == events0[j],
                forall|j: int|
                    0 <= j < k ==> self.events@[j]@ == (if events0[j].id == event_id {
                        EventModel { job_id: Some(id), ..events0[j] }
                    } else {
                        events0[j]
                    }),
                self.jobs@ == old(self)@.jobs.insert(i as int, job),
                self.runs@ == old(self).runs@,
                self.comparisons@ == old(self).comparisons@,
                self.result_comments@ == old(self).result_comments@,
            decreases self.events@.len() - k,
        {
            if self.events[k].id == event_id {
                self.events[k].job_id = Some(id);
            }
            k += 1;
        }
        proof {
            assert(self@.events =~= set_event_job(events0, event_id, id));
            assert(self@.jobs == insert_by_key(
                old(self)@.jobs,
                job_record(id, event_created_utc, now),
                job_time_fn(),
            ));
            assert(self@.runs =~= old(self)@.runs);
            assert(self@.comparisons =~= old(self)@.comparisons);
            assert forall|a: int, b: int|
                0 <= a < b < self@.events.len() implies event_time_fn()(self@.events[a])
                <= event_time_fn()(self@.events[b]) by {
                assert(self@.events[a].created_utc == events0[a].created_utc);
                assert(self@.events[b].created_utc == events0[b].created_utc);
            }
        }
        id
    }

    /// Mark the job as finished. Overwrites any earlier stamp, so repeated
    /// calls leave the job finished.
    pub fn job_finished(&mut self, id: u128)
        requires
            old(self).wf(),
        ensures
            final(self).wf(),
            exists|t: i128| final(self)@.jobs == #[trigger] finish_jobs(old(self)@.jobs, id, t),
            final(self)@.events == old(self)@.events,
            final(self)@.runs == old(self)@.runs,
            final(self)@.comparisons == old(self)@.comparisons,
            final(self)@.result_comments == old(self)@.result_comments,
    {
        let now = now_unix_nanos();
        let ghost jobs0 = self.jobs@;
        let mut k: usize = 0;
        while k < self.jobs.len()
            invariant
                k <= self.jobs@.len(),
                self.jobs@.len() == jobs0.len(),
                forall|j: int| k <= j < jobs0.len() ==> self.jobs@[j] == jobs0[j],
                forall|j: int|
                    0 <= j < k ==> self.jobs@[j] == (if jobs0[j].id == id {
                        BenchJob { finished_utc: Some(now), ..jobs0[j] }
                    } else {
                        jobs0[j]
                    }),
                self.events@ == old(self).events@,
                self.runs@ == old(self).runs@,
                self.comparisons@ == old(self).comparisons@,
                self.result_comments@ == old(self).result_comments@,
            decreases self.jobs@.len() - k,
        {
            if self.jobs[k].id == id {
                self.jobs[k].finished_utc = Some(now);
            }
            k += 1;
        }
        proof {
            assert(self@.jobs =~= finish_jobs(jobs0, id, now));
            assert(self@.events =~= old(self)@.events);
            assert(self@.runs =~= old(self)@.runs);
            assert(self@.comparisons =~= old(self)@.comparisons);
            assert forall|a: int, b: int|
                0 <= a < b < self@.jobs.len() implies job_time_fn()(self@.jobs[a]) <= job_time_fn()(
                self@.jobs[b],
            ) by {
                assert(self@.jobs[a].created_utc == jobs0[a].created_utc);
                assert(self@.jobs[b].created_utc == jobs0[b].created_utc);
            }
        }
    }

    /// Retrieve a job by its identifier, or fail with `NotFound`.
    pub fn job(&self, id: u128) -> (r: Result<BenchJob, DbError>)
        ensures
            r == match find_job(self@.jobs, id) {
                Some(j) => Ok::<BenchJob, DbError>(j),
                None => Err::<BenchJob, DbError>(DbError::NotFound),
            },
    {
        match self.maybe_job(id) {
            Some(j) => Ok(j),
            None => Err(DbError::NotFound),
        }
    }

    /// Retrieve a job by its identifier, if present.
    pub fn maybe_job(&self, id: u128) -> (r: Option<BenchJob>)
        ensures
            r == find_job(self@.jobs, id),
    {
        proof {
            assert(self@.jobs.skip(0) =~= self@.jobs);
        }
        let mut k: usize = 0;
        while k < self.jobs.len()
            invariant
                k <= self.jobs@.len(),
                find_job(self@.jobs, id) == find_job(self@.jobs.skip(k as int), id),
                forall|j: int| 0 <= j < k ==> self@.jobs[j].id != id,
            decreases self.jobs@.len() - k,
        {
            if self.jobs[k].id == id {
                proof {
                    assert(self@.jobs.skip(k as int)[0] == self@.jobs[k as int]);
                }
                return Some(self.jobs[k]);
            }
            proof {
                assert(self@.jobs.skip(k as int).drop_first() =~= self@.jobs.skip(k as int + 1));
            }
            k += 1;
        }
        proof {
            assert(self@.jobs.skip(k as int).len() == 0);
        }
        None
    }

    /// Delete a handled webhook. Absent identifiers are a no-op.
    pub fn delete_event(&mut self, id: u128)
        requires
            old(self).wf(),
        ensures
            final(self).wf(),
            final(self)@ == (DbModel {
                events: events_without(old(self)@.events, id),
                ..old(self)@
            }),
    {
        proof {
            assert(old(self)@.events.take(0) =~= Seq::<EventModel>::empty());
        }
        let mut kept: Vec<QueuedEvent> = Vec::new();
        let mut k: usize = 0;
        while k < self.events.len()
            invariant
                k <= self.events@.len(),
                *self == *old(self),
                event_views(kept@) == events_without(old(self)@.events.take(k as int), id),
            decreases self.events@.len() - k,
        {
            let ghost prefix = old(self)@.events.take(k as int);
            let ghost prefix1 = old(self)@.events.take(k as int + 1);
            proof {
                assert(prefix1.drop_last() =~= prefix);
                assert(prefix1.last() == old(self)@.events[k as int]);
            }
            if self.events[k].id != id {
                let e = &self.events[k];
                kept.push(QueuedEvent {
                    id: e.id,
                    job_id: e.job_id,
                    event: e.event.clone(),
                    payload: copy_bytes(&e.payload),
                    created_utc: e.created_utc,
                });
                proof {
                    assert(prefix1.last().id != id);
                    assert(events_without(prefix1, id) == events_without(prefix, id).push(
                        prefix1.last(),
                    ));
                    assert(kept@.last()@ == prefix1.last());
                    assert(event_views(kept@) =~= events_without(prefix1, id));
                }
            } else {
                proof {
                    assert(prefix1.last().id == id);
                    assert(events_without(prefix1, id) == events_without(prefix, id));
                }
            }
            k += 1;
        }
        self.events = kept;
        proof {
            assert(old(self)@.events.take(old(self)@.events.len() as int) =~= old(self)@.events);
            lemma_events_without_sorted(old(self)@.events, id);
            assert(self@ == (DbModel {
                events: events_without(old(self)@.events, id),
                ..old(self)@
            }));
        }
    }

    /// Store the results of a bench run: one run row plus its measurements,
    /// atomically.
    pub fn store_run_results(&mut self, icount_results: Vec<(String, u64)>) -> (r: u128)
        requires
            old(self).wf(),
        ensures
            final(self).wf(),
            exists|t: i128|
                final(self)@.runs == insert_by_key(
                    old(self)@.runs,
                    #[trigger] run_record(r, t, result_views(icount_results@)),
                    run_time_fn(),
                ),
            final(self)@.events == old(self)@.events,
            final(self)@.jobs == old(self)@.jobs,
            final(self)@.comparisons == old(self)@.comparisons,
            final(self)@.result_comments == old(self)@.result_comments,
    {
        let id = fresh_uuid();
        let now = now_unix_nanos();
        let ghost rm = run_record(id, now, result_views(icount_results@));

        let mut i: usize = self.runs.len();
        while i > 0 && self.runs[i - 1].created_utc > now
            invariant
                i <= self.runs.len(),
                forall|j: int| i <= j < self.runs@.len() ==> self.runs@[j].created_utc > now,
                *self == *old(self),
            decreases i,
        {
            i -= 1;
        }
        proof {
            lemma_insert_by_key_at(old(self)@.runs, rm, run_time_fn(), i as int);
            lemma_insert_by_key_sorted(old(self)@.runs, rm, run_time_fn(), i as int);
        }
        let run = BenchRun { id, created_utc: now, results: icount_results };
        self.runs.insert(i, run);
        proof {
            assert(self@.runs =~= old(self)@.runs.insert(i as int, rm));
            assert(self@.runs == insert_by_key(
                old(self)@.runs,
                run_record(id, now, result_views(icount_results@)),
                run_time_fn(),
            ));
            assert(self@.events =~= old(self)@.events);
            assert(self@.jobs =~= old(self)@.jobs);
            assert(self@.comparisons =~= old(self)@.comparisons);
            assert(self@.result_comments =~= old(self)@.result_comments);
        }
        id
    }

    /// Retrieve every result of every run created strictly after the cutoff,
    /// ordered by run creation time ascending.
    pub fn result_history(&self, cutoff: i128) -> (r: Vec<BenchResult>)
        requires
            self.wf(),
        ensures
            benchresult_views(r@) == history_of(self@.runs, cutoff as int),
    {
        proof {
            assert(self@.runs.take(0) =~= Seq::<RunModel>::empty());
            assert(benchresult_views(Seq::<BenchResult>::empty()) =~= Seq::<(Seq<char>, u64)>::empty());
        }
        let mut out: Vec<BenchResult> = Vec::new();
        let mut i: usize = 0;
        while i < self.runs.len()
            invariant
                i <= self.runs@.len(),
                benchresult_views(out@) =~= history_of(
                    self@.runs.take(i as int),
                    cutoff as int,
                ),
            decreases self.runs@.len() - i,
        {
            let ghost prefix = self@.runs.take(i as int);
            let ghost prefix1 = self@.runs.take(i as int + 1);
            proof {
                assert(prefix1.drop_last() =~= prefix);
                assert(prefix1.last() == self@.runs[i as int]);
            }
            if self.runs[i].created_utc > cutoff {
                let ghost run_results = self@.runs[i as int].results;
                proof {
                    assert(run_results.take(0) =~= Seq::<(Seq<char>, u64)>::empty());
                    assert(benchresult_views(out@) =~= history_of(
                        self@.runs.take(i as int),
                        cutoff as int,
                    ) + run_results.take(0));
                }
                let mut j: usize = 0;
                while j < self.runs[i].results.len()
                    invariant
                        i < self.runs@.len(),
                        j <= self.runs@[i as int].results@.len(),
                        run_results == self@.runs[i as int].results,
                        run_results.len() == self.runs@[i as int].results@.len(),
                        benchresult_views(out@) =~= history_of(
                            self@.runs.take(i as int),
                            cutoff as int,
                        ) + run_results.take(j as int),
                    decreases self.runs@[i as int].results@.len() - j,
                {
                    let name = self.runs[i].results[j].0.clone();
                    let value = self.runs[i].results[j].1;
                    let ghost out0 = out@;
                    out.push(BenchResult { name, result: value });
                    proof {
                        let ghost hist = history_of(self@.runs.take(i as int), cutoff as int);
                        assert(out@.last()@ == run_results[j as int]);
                        assert(benchresult_views(out@) =~= benchresult_views(out0).push(
                            run_results[j as int],
                        ));
                        assert((hist + run_results.take(j as int)).push(run_results[j as int])
                            =~= hist + run_results.take(j as int + 1));
                        assert(benchresult_views(out@) =~= hist + run_results.take(j as int + 1));
                    }
                    j += 1;
                }
                proof {
                    assert(run_results.take(run_results.len() as int) =~= run_results);
                    assert(benchresult_views(out@) =~= history_of(
                        prefix1,
                        cutoff as int,
                    ));
                }
            } else {
                proof {
                    assert(benchresult_views(out@) =~= history_of(
                        prefix1,
                        cutoff as int,
                    ));
                }
            }
            i += 1;
        }
        proof {
            assert(self@.runs.take(self@.runs.len() as int) =~= self@.runs);
        }
        out
    }

    /// Store a comparison: the run row and all diff rows together. An empty
    /// missing-scenario list is stored as absent.
    pub fn store_comparison_result(
        &mut self,
        baseline_commit: String,
        candidate_commit: String,
        scenarios_missing: Vec<String>,
        diffs: Vec<ScenarioDiff>,
    ) -> (r: u128)
        requires
            old(self).wf(),
        ensures
            final(self).wf(),
            exists|t: i128|
                final(self)@.comparisons == old(self)@.comparisons.push(
                    #[trigger] comparison_record(
                        r,
                        t,
                        baseline_commit@,
                        candidate_commit@,
                        views_of(scenarios_missing@),
                        diff_views(diffs@),
                    ),
                ),
            final(self)@.events == old(self)@.events,
            final(self)@.jobs == old(self)@.jobs,
            final(self)@.runs == old(self)@.runs,
            final(self)@.result_comments == old(self)@.result_comments,
    {
        let id = fresh_uuid();
        let now = now_unix_nanos();
        let missing_json: Option<String> = if scenarios_missing.len() == 0 {
            None
        } else {
            let j = json_encode_string_list(&scenarios_missing);
            proof {
                assert(views_of(scenarios_missing@).len() > 0);
            }
            Some(j)
        };
        let run = ComparisonRun {
            id,
            created_utc: now,
            baseline_commit,
            candidate_commit,
            missing_json,
            diffs,
        };
        self.comparisons.push(run);
        proof {
            assert(self@.comparisons =~= old(self)@.comparisons.push(
                comparison_record(
                    id,
                    now,
                    baseline_commit@,
                    candidate_commit@,
                    views_of(scenarios_missing@),
                    diff_views(diffs@),
                ),
            ));
            assert(self@.events =~= old(self)@.events);
            assert(self@.result_comments =~= old(self)@.result_comments);
            assert(self@.jobs =~= old(self)@.jobs);
            assert(self@.runs =~= old(self)@.runs);
        }
        id
    }

    /// Retrieve the comparison stored under the ordered commit pair, if any.
    /// The absent missing-scenario value decodes to the empty list.
    pub fn comparison_result(&self, baseline_commit: &str, candidate_commit: &str) -> (r: Result<
        Option<CompareResult>,
        DbError,
    >)
        requires
            self.wf(),
        ensures
            find_comparison(self@.comparisons, baseline_commit@, candidate_commit@) is None
                ==> r == Ok::<Option<CompareResult>, DbError>(None),
            find_comparison(self@.comparisons, baseline_commit@, candidate_commit@) matches Some(
                cm,
            ) ==> (r matches Ok(o) && o matches Some(cr) && diff_views(cr.diffs@) == cm.diffs && (
            cm.missing_json is None ==> cr.scenarios_missing_in_baseline@.len() == 0) && (
            cm.missing_json matches Some(j) ==> forall|v: Seq<Seq<char>>|
                j == json_strlist_of(v) ==> views_of(cr.scenarios_missing_in_baseline@) == v)),
    {
        proof {
            assert(self@.comparisons.skip(0) =~= self@.comparisons);
        }
        let mut k: usize = 0;
        while k < self.comparisons.len()
            invariant
                self.wf(),
                k <= self.comparisons@.len(),
                find_comparison(self@.comparisons, baseline_commit@, candidate_commit@)
                    == find_comparison(
                    self@.comparisons.skip(k as int),
                    baseline_commit@,
                    candidate_commit@,
                ),
            decreases self.comparisons@.len() - k,
        {
            proof {
                assert(self@.comparisons.skip(k as int)[0] == self@.comparisons[k as int]);
            }
            let c = &self.comparisons[k];
            if str_eq(c.baseline_commit.as_str(), baseline_commit) && str_eq(
                c.candidate_commit.as_str(),
                candidate_commit,
            ) {
                let missing: Vec<String> = match &c.missing_json {
                    None => Vec::new(),
                    Some(j) => {
                        match json_decode_string_list(j.as_str()) {
                            Some(l) => l,
                            None => {
                                proof {
                                    assert(comparison_wf(self@.comparisons[k as int]));
                                }
                                return Err(DbError::DataCorruption);
                            },
                        }
                    },
                };
                let out_diffs = copy_diffs(&c.diffs);
                proof {
                    if c@.missing_json is None {
                        assert(missing@.len() == 0);
                    }
                }
                return Ok(Some(CompareResult {
                    diffs: out_diffs,
                    scenarios_missing_in_baseline: missing,
                }));
            }
            proof {
                assert(self@.comparisons.skip(k as int).drop_first() =~= self@.comparisons.skip(
                    k as int + 1,
                ));
            }
            k += 1;
        }
        proof {
            assert(self@.comparisons.skip(k as int).len() == 0);
        }
        Ok(None)
    }

    /// Look up the cachegrind diff text for one scenario within the stored
    /// comparison of the ordered commit pair.
    pub fn cachegrind_diff(
        &self,
        baseline_commit: &str,
        candidate_commit: &str,
        scenario_name: &str,
    ) -> (r: Option<String>)
        ensures
            r matches Some(s) ==> cachegrind_lookup(
                self@.comparisons,
                baseline_commit@,
                candidate_commit@,
                scenario_name@,
            ) == Some(s@),
            r is None ==> cachegrind_lookup(
                self@.comparisons,
                baseline_commit@,
                candidate_commit@,
                scenario_name@,
            ) is None,
    {
        let ghost target = cachegrind_lookup(
            self@.comparisons,
            baseline_commit@,
            candidate_commit@,
            scenario_name@,
        );
        proof {
            assert(self@.comparisons.skip(0) =~= self@.comparisons);
        }
        let mut k: usize = 0;
        while k < self.comparisons.len()
            invariant
                k <= self.comparisons@.len(),
                target == cachegrind_lookup(
                    self@.comparisons,
                    baseline_commit@,
                    candidate_commit@,
                    scenario_name@,
                ),
                target == cachegrind_lookup(
                    self@.comparisons.skip(k as int),
                    baseline_commit@,
                    candidate_commit@,
                    scenario_name@,
                ),
            decreases self.comparisons@.len() - k,
        {
            proof {
                assert(self@.comparisons.skip(k as int)[0] == self@.comparisons[k as int]);
            }
            let c = &self.comparisons[k];
            if str_eq(c.baseline_commit.as_str(), baseline_commit) && str_eq(
                c.candidate_commit.as_str(),
                candidate_commit,
            ) {
                // Scan this comparison's diffs for the scenario.
                let ghost dm = self@.comparisons[k as int].diffs;
                proof {
                    assert(dm.skip(0) =~= dm);
                }
                let mut j: usize = 0;
                while j < c.diffs.len()
                    invariant
                        j <= c.diffs@.len(),
                        k < self.comparisons@.len(),
                        c == &self.comparisons[k as int],
                        dm == diff_views(c.diffs@),
                        dm == self@.comparisons[k as int].diffs,
                        dm.len() == c.diffs@.len(),
                        self@.comparisons[k as int].baseline_commit == baseline_commit@,
                        self@.comparisons[k as int].candidate_commit == candidate_commit@,
                        target == cachegrind_lookup(
                            self@.comparisons,
                            baseline_commit@,
                            candidate_commit@,
                            scenario_name@,
                        ),
                        target == cachegrind_lookup(
                            self@.comparisons.skip(k as int),
                            baseline_commit@,
                            candidate_commit@,
                            scenario_name@,
                        ),
                        diff_text_for(dm, scenario_name@) == diff_text_for(
                            dm.skip(j as int),
                            scenario_name@,
                        ),
                    decreases c.diffs@.len() - j,
                {
                    proof {
                        assert(dm.skip(j as int)[0] == dm[j as int]);
                    }
                    if str_eq(c.diffs[j].scenario_name.as_str(), scenario_name) {
                        proof {
                            assert(diff_text_for(dm.skip(j as int), scenario_name@) == Some(
                                dm[j as int].cachegrind_diff,
                            ));
                            assert(self@.comparisons.skip(k as int)[0]
                                == self@.comparisons[k as int]);
                            assert(cachegrind_lookup(
                                self@.comparisons.skip(k as int),
                                baseline_commit@,
                                candidate_commit@,
                                scenario_name@,
                            ) == Some(dm[j as int].cachegrind_diff));
                        }
                        return Some(c.diffs[j].cachegrind_diff.clone());
                    }
                    proof {
                        assert(dm.skip(j as int).drop_first() =~= dm.skip(j as int + 1));
                    }
                    j += 1;
                }
                proof {
                    assert(dm.skip(j as int).len() == 0);
                    assert(diff_text_for(dm, scenario_name@) is None);
                    assert(self@.comparisons.skip(k as int).drop_first()
                        =~= self@.comparisons.skip(k as int + 1));
                }
                k += 1;
            } else {
                proof {
                    assert(self@.comparisons.skip(k as int).drop_first()
                        =~= self@.comparisons.skip(k as int + 1));
                }
                k += 1;
            }
        }
        proof {
            assert(self@.comparisons.skip(k as int).len() == 0);
        }
        None
    }

    /// Remember which comment publishes results for a pull request. Not
    /// idempotent: callers guard it with a prior lookup.
    pub fn store_result_comment_id(&mut self, pr_number: u64, comment_id: u64)
        requires
            old(self).wf(),
        ensures
            final(self).wf(),
            final(self)@ == (DbModel {
                result_comments: old(self)@.result_comments.push(
                    (ResultComment { pr_number, comment_id }),
                ),
                ..old(self)@
            }),
    {
        self.result_comments.push(ResultComment { pr_number, comment_id });
        proof {
            assert(self@.events =~= old(self)@.events);
            assert(self@.jobs =~= old(self)@.jobs);
            assert(self@.runs =~= old(self)@.runs);
            assert(self@.comparisons =~= old(self)@.comparisons);
            assert(self@ == (DbModel {
                result_comments: old(self)@.result_comments.push(
                    (ResultComment { pr_number, comment_id }),
                ),
                ..old(self)@
            }));
        }
    }

    /// The comment identifier previously stored for a pull request, if any.
    pub fn result_comment_id(&self, pr_number: u64) -> (r: Option<u64>)
        ensures
            r == find_comment(self@.result_comments, pr_number),
    {
        proof {
            assert(self@.result_comments.skip(0) =~= self@.result_comments);
        }
        let mut k: usize = 0;
        while k < self.result_comments.len()
            invariant
                k <= self.result_comments@.len(),
                find_comment(self@.result_comments, pr_number) == find_comment(
                    self@.result_comments.skip(k as int),
                    pr_number,
                ),
            decreases self.result_comments@.len() - k,
        {
            proof {
                assert(self@.result_comments.skip(k as int)[0]
                    == self@.result_comments[k as int]);
            }
            if self.result_comments[k].pr_number == pr_number {
                return Some(self.result_comments[k].comment_id);
            }
            proof {
                assert(self@.result_comments.skip(k as int).drop_first()
                    =~= self@.result_comments.skip(k as int + 1));
            }
            k += 1;
        }
        proof {
            assert(self@.result_comments.skip(k as int).len() == 0);
        }
        None
    }

    /// Every job, ordered by creation time.
    pub fn jobs(&self) -> (r: Vec<BenchJob>)
        ensures
            r@ == self@.jobs,
    {
        let mut out: Vec<BenchJob> = Vec::new();
        let mut k: usize = 0;
        while k < self.jobs.len()
            invariant
                k <= self.jobs@.len(),
                out@ =~= self@.jobs.take(k as int),
            decreases self.jobs@.len() - k,
        {
            out.push(self.jobs[k]);
            k += 1;
        }
        proof {
            assert(self@.jobs.take(self@.jobs.len() as int) =~= self@.jobs);
        }
        out
    }

    /// Every queued event, ordered by creation time.
    pub fn queued_events(&self) -> (r: Vec<QueuedEvent>)
        ensures
            r@.map_values(|e: QueuedEvent| e@) == self@.events,
    {
        let mut out: Vec<QueuedEvent> = Vec::new();
        let mut k: usize = 0;
        while k < self.events.len()
            invariant
                k <= self.events@.len(),
                event_views(out@) =~= self@.events.take(k as int),
            decreases self.events@.len() - k,
        {
            let e = &self.events[k];
            out.push(QueuedEvent {
                id: e.id,
                job_id: e.job_id,
                event: e.event.clone(),
                payload: copy_bytes(&e.payload),
                created_utc: e.created_utc,
            });
            proof {
                assert(out@.last()@ == self@.events[k as int]);
                assert(self@.events.take(k as int + 1) =~= self@.events.take(k as int).push(
                    self@.events[k as int],
                ));
                assert(event_views(out@) =~= self@.events.take(k as int + 1));
            }
            k += 1;
        }
        proof {
            assert(self@.events.take(self@.events.len() as int) =~= self@.events);
        }
        out
    }
}

/// An element-for-element copy of a byte vector.
pub fn copy_bytes(v: &Vec<u8>) -> (r: Vec<u8>)
    ensures
        r@ == v@,
{
    let mut out: Vec<u8> = Vec::new();
    let mut k: usize = 0;
    while k < v.len()
        invariant
            k <= v@.len(),
            out@ =~= v@.take(k as int),
        decreases v@.len() - k,
    {
        out.push(v[k]);
        k += 1;
    }
    proof {
        assert(v@.take(v@.len() as int) =~= v@);
    }
    out
}

/// A view-preserving copy of a list of scenario diffs.
pub fn copy_diffs(v: &Vec<ScenarioDiff>) -> (r: Vec<ScenarioDiff>)
    ensures
        diff_views(r@) == diff_views(v@),
{
    let mut out: Vec<ScenarioDiff> = Vec::new();
    let mut k: usize = 0;
    while k < v.len()
        invariant
            k <= v@.len(),
            diff_views(out@) =~= diff_views(v@.take(k as int)),
        decreases v@.len() - k,
    {
        let ghost out0 = out@;
        out.push(v[k].duplicate());
        proof {
            assert(out@.last()@ == v@[k as int]@);
            assert(diff_views(out@) =~= diff_views(out0).push(v@[k as int]@));
            assert(diff_views(v@.take(k as int + 1)) =~= diff_views(v@.take(k as int)).push(
                v@[k as int]@,
            ));
            assert(diff_views(out@) =~= diff_views(v@.take(k as int + 1)));
        }
        k += 1;
    }
    proof {
        assert(v@.take(v@.len() as int) =~= v@);
        assert(diff_views(out@) =~= diff_views(v@));
    }
    out
}

/// Character-for-character string equality.
pub fn str_eq(a: &str, b: &str) -> (r: bool)
    ensures
        r == (a@ == b@),
{
    let la = a.unicode_len();
    let lb = b.unicode_len();
    if la != lb {
        false
    } else {
        let mut i: usize = 0;
        let mut eq = true;
        while eq && i < la
            invariant
                la == a@.len(),
                la == lb,
                lb == b@.len(),
                i <= la,
                eq ==> forall|j: int| 0 <= j < i ==> a@[j] == b@[j],
                !eq ==> a@ != b@,
            decreases la - i + (if eq { 1int } else { 0int }),
        {
            if a.get_char(i) != b.get_char(i) {
                proof {
                    if a@ == b@ {
                        assert(a@[i as int] == b@[i as int]);
                    }
                }
                eq = false;
            } else {
                i += 1;
            }
        }
        proof {
            if eq {
                assert(a@ =~= b@);
            }
        }
        eq
    }
}

/// Queue ordering law, enqueue half: an event created no earlier than every
/// queued event joins the back of the queue, so events enqueued in order
/// stand in the queue in that order.
pub proof fn lemma_queue_fifo_enqueue(events: Seq<EventModel>, e: EventModel)
    requires
        forall|i: int| 0 <= i < events.len() ==> events[i].created_utc <= e.created_utc,
    ensures
        insert_by_key(events, e, event_time_fn()) == events.push(e),
{
    lemma_insert_by_key_at(events, e, event_time_fn(), events.len() as int);
    assert(events.insert(events.len() as int, e) =~= events.push(e));
}

/// Queue ordering law, drain half: when identifiers are distinct, deleting
/// the head of the queue (the event `next_queued_event` returns) leaves
/// exactly the tail, so repeated retrieve-and-delete drains the queue in
/// order.
pub proof fn lemma_queue_fifo_drain(events: Seq<EventModel>)
    requires
        events.len() > 0,
        forall|i: int, j: int| 0 <= i < j < events.len() ==> events[i].id != events[j].id,
    ensures
        events_without(events, events[0].id) == events.drop_first(),
    decreases events.len(),
{
    if events.len() == 1 {
        assert(events.last() == events[0]);
        assert(events.drop_last().len() == 0);
        assert(events_without(events.drop_last(), events[0].id) =~= Seq::<EventModel>::empty());
        assert(events_without(events, events[0].id) == events_without(
            events.drop_last(),
            events[0].id,
        ));
        assert(events.drop_first() =~= Seq::<EventModel>::empty());
    } else {
        let dl = events.drop_last();
        assert(dl[0] == events[0]);
        lemma_queue_fifo_drain(dl);
        assert(events.last() == events[events.len() - 1]);
        assert(events.last().id != events[0].id);
        assert(events_without(events, events[0].id) == events_without(dl, events[0].id).push(
            events.last(),
        ));
        assert(dl.drop_first().push(events.last()) =~= events.drop_first());
    }
}

/// A job with a fresh identifier is found after its insertion.
proof fn lemma_find_job_insert(s: Seq<BenchJob>, j: BenchJob, i: int)
    requires
        0 <= i <= s.len(),
        forall|k: int| 0 <= k < s.len() ==> s[k].id != j.id,
    ensures
        find_job(s.insert(i, j), j.id) == Some(j),
    decreases i,
{
    if i == 0 {
        assert(s.insert(0, j)[0] == j);
    } else {
        assert(s.insert(i, j)[0] == s[0]);
        assert(s.insert(i, j).drop_first() =~= s.drop_first().insert(i - 1, j));
        lemma_find_job_insert(s.drop_first(), j, i - 1);
    }
}

/// Finishing a job rewrites exactly the jobs under that identifier.
proof fn lemma_find_job_finish(s: Seq<BenchJob>, id: u128, t: i128)
    ensures
        find_job(finish_jobs(s, id, t), id) == match find_job(s, id) {
            Some(j) => Some(BenchJob { finished_utc: Some(t), ..j }),
            None => None::<BenchJob>,
        },
    decreases s.len(),
{
    if s.len() > 0 {
        assert(finish_jobs(s, id, t)[0] == (if s[0].id == id {
            BenchJob { finished_utc: Some(t), ..s[0] }
        } else {
            s[0]
        }));
        if s[0].id != id {
            assert(finish_jobs(s, id, t).drop_first() =~= finish_jobs(s.drop_first(), id, t));
            lemma_find_job_finish(s.drop_first(), id, t);
        }
    }
}

/// Job lifecycle law: a job created for an event with a fresh identifier is
/// retrievable; its `event_queued_utc` is the event's creation time; its
/// `finished_utc` is absent until `job_finished` stamps it, and present (with
/// the stamping time) afterwards.
pub proof fn lemma_job_lifecycle(
    jobs: Seq<BenchJob>,
    id: u128,
    event_queued_utc: i128,
    t1: i128,
    t2: i128,
)
    requires
        forall|k: int| 0 <= k < jobs.len() ==> jobs[k].id != id,
    ensures
        ({
            let j = job_record(id, event_queued_utc, t1);
            let created = insert_by_key(jobs, j, job_time_fn());
            &&& find_job(created, id) == Some(j)
            &&& j.finished_utc is None
            &&& j.event_queued_utc == event_queued_utc
            &&& find_job(finish_jobs(created, id, t2), id) == Some(
                BenchJob { finished_utc: Some(t2), ..j },
            )
        }),
{
    let j = job_record(id, event_queued_utc, t1);
    let created = insert_by_key(jobs, j, job_time_fn());
    crate::order::lemma_insert_by_key_is_insert(jobs, j, job_time_fn());
    let i = choose|i: int| 0 <= i <= jobs.len() && created == jobs.insert(i, j);
    lemma_find_job_insert(jobs, j, i);
    lemma_find_job_finish(created, id, t2);
}

/// Comment idempotence law, lookup half: once a pull request has a result
/// comment, storing further comment mappings never changes which comment is
/// found for it, so the pipeline keeps editing the same comment.
pub proof fn lemma_comment_id_stable(comments: Seq<ResultComment>, pr_number: u64, c: ResultComment)
    requires
        find_comment(comments, pr_number) is Some,
    ensures
        find_comment(comments.push(c), pr_number) == find_comment(comments, pr_number),
    decreases comments.len(),
{
    assert(comments.len() > 0);
    assert(comments.push(c)[0] == comments[0]);
    if comments[0].pr_number != pr_number {
        assert(comments.push(c).drop_first() =~= comments.drop_first().push(c));
        lemma_comment_id_stable(comments.drop_first(), pr_number, c);
    }
}

/// Comment idempotence law, first-store half: after the first successful
/// store for a pull request, the stored comment identifier is the one found.
pub proof fn lemma_comment_id_round_trip(
    comments: Seq<ResultComment>,
    pr_number: u64,
    comment_id: u64,
)
    requires
        find_comment(comments, pr_number) is None,
    ensures
        find_comment(comments.push((ResultComment { pr_number, comment_id })), pr_number) == Some(
            comment_id,
        ),
    decreases comments.len(),
{
    let c = ResultComment { pr_number, comment_id };
    if comments.len() == 0 {
        assert(comments.push(c)[0] == c);
    } else {
        assert(comments.push(c)[0] == comments[0]);
        assert(comments[0].pr_number != pr_number);
        assert(comments.push(c).drop_first() =~= comments.drop_first().push(c));
        lemma_comment_id_round_trip(comments.drop_first(), pr_number, comment_id);
    }
}

/// Comparison round-trip law: a comparison stored under a commit pair not
/// yet present is exactly the one later retrieved for that pair — its diff
/// list (hence the diff multiset) and its missing-scenario encoding.
pub proof fn lemma_comparison_round_trip(comps: Seq<ComparisonModel>, cm: ComparisonModel)
    requires
        forall|i: int|
            0 <= i < comps.len() ==> !((#[trigger] comps[i]).baseline_commit == cm.baseline_commit
                && comps[i].candidate_commit == cm.candidate_commit),
    ensures
        find_comparison(comps.push(cm), cm.baseline_commit, cm.candidate_commit) == Some(cm),
    decreases comps.len(),
{
    if comps.len() == 0 {
        assert(comps.push(cm)[0] == cm);
    } else {
        assert(comps.push(cm)[0] == comps[0]);
        assert(comps.push(cm).drop_first() =~= comps.drop_first().push(cm));
        lemma_comparison_round_trip(comps.drop_first(), cm);
    }
}

} // verus!
