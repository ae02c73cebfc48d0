//! Report rendering: the GitHub-flavoured markdown comment describing a
//! comparison (or the failure to produce one), with per-scenario tables
//! linking to cachegrind diffs.
use vstd::prelude::*;

use crate::compare::{negligible_of, significant_of, sort_by_ratio_desc, split_on_threshold};
use crate::db::{diff_of, diff_views, ratio_of, CompareResult, DiffModel, ScenarioDiff};
use crate::text::{all_blank, append_dec, append_percent, append_signed_value, append_trim_end,
    append_value, percent_text, signed_value_text, str_all_blank, trim_end_text, value_text};
use crate::trusted::views_of;
use crate::{PrBranches, PrBranchesModel};
use vstd::string::{StrSliceExecFns, StringExecFns};

verus! {

/// The ceiling on a published comment, in characters.
pub const MAX_COMMENT_LEN: usize = 65536;

/// One command capture from a benchmark run.
pub struct Log {
    pub command: String,
    pub cwd: String,
    pub stdout: String,
    pub stderr: String,
}

/// Mathematical value of a log capture.
#[verifier::ext_equal]
pub ghost struct LogModel {
    pub command: Seq<char>,
    pub cwd: Seq<char>,
    pub stdout: Seq<char>,
    pub stderr: Seq<char>,
}

impl View for Log {
    type V = LogModel;

    open spec fn view(&self) -> LogModel {
        LogModel {
            command: self.command@,
            cwd: self.cwd@,
            stdout: self.stdout@,
            stderr: self.stderr@,
        }
    }
}

/// The views of a list of log captures.
pub open spec fn log_views(s: Seq<Log>) -> Seq<LogModel> {
    s.map_values(|l: Log| l@)
}

/// The log captures of both sides of a run.
pub struct BenchPrLogs {
    pub base: Vec<Log>,
    pub candidate: Vec<Log>,
}

/// A failed comparison: the failure message and the logs gathered so far.
pub struct BenchPrError {
    pub error: String,
    pub logs: BenchPrLogs,
}

/// What a finished pipeline run reports: the branches compared, and the
/// comparison or the failure.
pub struct BenchPrResult {
    pub branches: PrBranches,
    pub result: Result<CompareResult, BenchPrError>,
}

/// One rendered log part: the part name, then the trimmed text in a code
/// fence, or an `_empty_` marker when the text is all whitespace.
pub open spec fn log_part_text(name: Seq<char>, part: Seq<char>) -> Seq<char> {
    name + ":"@ + if all_blank(part) {
        " _empty_.\n\n"@
    } else {
        "\n```\n"@ + trim_end_text(part) + "\n```\n\n"@
    }
}

/// One rendered log capture: command, working directory, stdout, stderr.
pub open spec fn log_text(l: LogModel) -> Seq<char> {
    log_part_text("command"@, l.command) + log_part_text("cwd"@, l.cwd) + log_part_text(
        "stdout"@,
        l.stdout,
    ) + log_part_text("stderr"@, l.stderr)
}

/// The rendered log captures of one side, or a marker when there are none.
pub open spec fn logs_text(logs: Seq<LogModel>) -> Seq<char>
    decreases logs.len(),
{
    if logs.len() == 0 {
        "_Not available_\n"@
    } else {
        logs_prefix_text(logs)
    }
}

/// The concatenation of all rendered log captures.
pub open spec fn logs_prefix_text(logs: Seq<LogModel>) -> Seq<char>
    decreases logs.len(),
{
    if logs.len() == 0 {
        Seq::empty()
    } else {
        logs_prefix_text(logs.drop_last()) + log_text(logs.last())
    }
}

/// The checkout details of both sides.
pub open spec fn checkout_text(b: PrBranchesModel) -> Seq<char> {
    "- Base repo: "@ + b.baseline.clone_url + "\n"@ + "- Base branch: "@ + b.baseline.branch_name
        + " ("@ + b.baseline.commit_sha + ")\n"@ + "- Candidate repo: "@ + b.candidate.clone_url
        + "\n"@ + "- Candidate branch: "@ + b.candidate.branch_name + " ("@
        + b.candidate.commit_sha + ")\n"@
}

/// The emoji prefix of a significant row: a warning when the candidate is
/// worse, a check when it is better.
pub open spec fn emoji_text(d: DiffModel, emoji_feedback: bool) -> Seq<char> {
    if emoji_feedback && diff_of(d) > 0 {
        "⚠️ "@
    } else if emoji_feedback && diff_of(d) < 0 {
        "✅ "@
    } else {
        Seq::empty()
    }
}

/// One table row: scenario, both results, the linked diff with its ratio,
/// and the threshold.
pub open spec fn row_text(d: DiffModel, url: Seq<char>, emoji_feedback: bool) -> Seq<char> {
    "| "@ + d.scenario_name + " | "@ + value_text(d.baseline_result) + " | "@ + value_text(
        d.candidate_result,
    ) + " | "@ + emoji_text(d, emoji_feedback) + "["@ + signed_value_text(diff_of(d)) + "]("@ + url
        + "/"@ + d.scenario_name + ") ("@ + percent_text(ratio_of(d)) + "%) | "@ + percent_text(
        d.significance_threshold as int,
    ) + "% |\n"@
}

/// All table rows, in order.
pub open spec fn rows_text(diffs: Seq<DiffModel>, url: Seq<char>, emoji_feedback: bool) -> Seq<
    char,
>
    decreases diffs.len(),
{
    if diffs.len() == 0 {
        Seq::empty()
    } else {
        rows_text(diffs.drop_last(), url, emoji_feedback) + row_text(
            diffs.last(),
            url,
            emoji_feedback,
        )
    }
}

/// A full markdown table of diffs.
pub open spec fn table_text(diffs: Seq<DiffModel>, url: Seq<char>, emoji_feedback: bool) -> Seq<
    char,
> {
    "| Scenario | Baseline | Candidate | Diff | Threshold |\n"@
        + "| --- | ---: | ---: | ---: | ---: |\n"@ + rows_text(diffs, url, emoji_feedback)
}

/// The bullet list of scenarios missing in the baseline.
pub open spec fn missing_items_text(missing: Seq<Seq<char>>) -> Seq<char>
    decreases missing.len(),
{
    if missing.len() == 0 {
        Seq::empty()
    } else {
        missing_items_text(missing.drop_last()) + "* "@ + missing.last() + "\n"@
    }
}

/// The markdown report of a comparison: a missing-scenario warning when
/// needed, the significant differences (sorted by ratio descending), and the
/// other differences in a collapsible section.
pub open spec fn report_text(
    diffs: Seq<DiffModel>,
    missing: Seq<Seq<char>>,
    url: Seq<char>,
) -> Seq<char> {
    let sig = sort_by_ratio_desc(significant_of(diffs));
    let neg = sort_by_ratio_desc(negligible_of(diffs));
    "# Benchmark results\n"@ + (if missing.len() > 0 {
        "### ⚠️ Warning: missing benchmarks\n"@ + "\n"@
            + "The following benchmark scenarios are present in the candidate but not in the baseline:\n"@
            + "\n"@ + missing_items_text(missing)
    } else {
        Seq::empty()
    }) + "## Significant instruction count differences\n"@ + (if sig.len() == 0 {
        "_There are no significant instruction count differences_\n"@
    } else {
        table_text(sig, url, true)
    }) + "## Other instruction count differences\n"@ + (if neg.len() == 0 {
        "_There are no other instruction count differences_\n"@
    } else {
        "<details>\n"@ + "<summary>Click to expand</summary>\n\n"@ + table_text(neg, url, false)
            + "</details>\n\n"@
    })
}

/// The whole markdown comment: the report plus checkout details on success,
/// or the failure message, checkout details and logs on failure.
pub open spec fn comment_text(
    branches: PrBranchesModel,
    result_diffs: Seq<DiffModel>,
    result_missing: Seq<Seq<char>>,
    failure: Option<(Seq<char>, Seq<LogModel>, Seq<LogModel>)>,
    url: Seq<char>,
) -> Seq<char> {
    match failure {
        None => report_text(result_diffs, result_missing, url) + "### Checkout details\n"@
            + checkout_text(branches),
        Some(f) => "# Error running benchmarks\n"@ + "Cause:\n"@ + "```\n"@ + f.0 + "\n```\n"@
            + "Checkout details:\n"@ + checkout_text(branches) + "## Logs\n"@ + "### Candidate\n"@
            + logs_text(f.1) + "### Base\n"@ + logs_text(f.2),
    }
}

impl BenchPrResult {
    /// Render the whole markdown comment for this result.
    pub fn into_markdown_comment(self, diff_url: &str) -> (r: String)
        ensures
            r@ == match self.result {
                Ok(res) => comment_text(
                    self.branches@,
                    diff_views(res.diffs@),
                    views_of(res.scenarios_missing_in_baseline@),
                    None::<(Seq<char>, Seq<LogModel>, Seq<LogModel>)>,
                    diff_url@,
                ),
                Err(e) => comment_text(
                    self.branches@,
                    Seq::empty(),
                    Seq::empty(),
                    Some((e.error@, log_views(e.logs.candidate@), log_views(e.logs.base@))),
                    diff_url@,
                ),
            },
    {
        let checkout_details = self.checkout_details();
        let mut s = String::new();
        match self.result {
            Ok(bench_results) => {
                let mut out = print_report(bench_results, diff_url);
                out.append("### Checkout details\n");
                out.append(checkout_details.as_str());
                proof {
                    assert(out@ =~= comment_text(
                        self.branches@,
                        diff_views(bench_results.diffs@),
                        views_of(bench_results.scenarios_missing_in_baseline@),
                        None::<(Seq<char>, Seq<LogModel>, Seq<LogModel>)>,
                        diff_url@,
                    ));
                }
                out
            },
            Err(error) => {
                s.append("# Error running benchmarks\n");
                s.append("Cause:\n");
                s.append("```\n");
                s.append(error.error.as_str());
                s.append("\n```\n");
                s.append("Checkout details:\n");
                s.append(checkout_details.as_str());
                s.append("## Logs\n");
                s.append("### Candidate\n");
                Self::write_logs_for_run(&mut s, &error.logs.candidate);
                s.append("### Base\n");
                Self::write_logs_for_run(&mut s, &error.logs.base);
                proof {
                    assert(s@ =~= comment_text(
                        self.branches@,
                        Seq::empty(),
                        Seq::empty(),
                        Some((
                            error.error@,
                            log_views(error.logs.candidate@),
                            log_views(error.logs.base@),
                        )),
                        diff_url@,
                    ));
                }
                s
            },
        }
    }

    /// Append the rendered log captures of one side, or a marker when there
    /// are none.
    pub fn write_logs_for_run(s: &mut String, logs: &Vec<Log>)
        ensures
            final(s)@ == old(s)@ + logs_text(log_views(logs@)),
    {
        let ghost lv = log_views(logs@);
        if logs.len() == 0 {
            s.append("_Not available_\n");
        } else {
            let mut k: usize = 0;
            proof {
                assert(lv.take(0) =~= Seq::<LogModel>::empty());
            }
            while k < logs.len()
                invariant
                    k <= logs@.len(),
                    lv == log_views(logs@),
                    lv.len() == logs@.len(),
                    s@ == old(s)@ + logs_prefix_text(lv.take(k as int)),
                decreases logs@.len() - k,
            {
                proof {
                    assert(lv.take(k as int + 1).drop_last() =~= lv.take(k as int));
                    assert(lv.take(k as int + 1).last() == lv[k as int]);
                }
                Self::write_log(s, &logs[k]);
                proof {
                    assert(s@ =~= old(s)@ + logs_prefix_text(lv.take(k as int + 1)));
                }
                k += 1;
            }
            proof {
                assert(lv.take(lv.len() as int) =~= lv);
                assert(logs_text(lv) == logs_prefix_text(lv));
            }
        }
    }

    /// Append one rendered log capture.
    pub fn write_log(s: &mut String, log: &Log)
        ensures
            final(s)@ == old(s)@ + log_text(log@),
    {
        Self::write_log_part(s, "command", log.command.as_str());
        Self::write_log_part(s, "cwd", log.cwd.as_str());
        Self::write_log_part(s, "stdout", log.stdout.as_str());
        Self::write_log_part(s, "stderr", log.stderr.as_str());
        proof {
            assert(s@ =~= old(s)@ + log_text(log@));
        }
    }

    /// Append one rendered log part.
    pub fn write_log_part(s: &mut String, part_name: &str, part: &str)
        ensures
            final(s)@ == old(s)@ + log_part_text(part_name@, part@),
    {
        s.append(part_name);
        s.append(":");
        if str_all_blank(part) {
            s.append(" _empty_.\n\n");
        } else {
            s.append("\n```\n");
            append_trim_end(s, part);
            s.append("\n```\n\n");
        }
        proof {
            assert(s@ =~= old(s)@ + log_part_text(part_name@, part@));
        }
    }

    /// The checkout details of both sides.
    pub fn checkout_details(&self) -> (r: String)
        ensures
            r@ == checkout_text(self.branches@),
    {
        let mut s = String::new();
        s.append("- Base repo: ");
        s.append(self.branches.baseline.clone_url.as_str());
        s.append("\n");
        s.append("- Base branch: ");
        s.append(self.branches.baseline.branch_name.as_str());
        s.append(" (");
        s.append(self.branches.baseline.commit_sha.as_str());
        s.append(")\n");
        s.append("- Candidate repo: ");
        s.append(self.branches.candidate.clone_url.as_str());
        s.append("\n");
        s.append("- Candidate branch: ");
        s.append(self.branches.candidate.branch_name.as_str());
        s.append(" (");
        s.append(self.branches.candidate.commit_sha.as_str());
        s.append(")\n");
        proof {
            assert(s@ =~= checkout_text(self.branches@));
        }
        s
    }
}

/// Append one table row for a diff.
fn append_row(s: &mut String, d: &ScenarioDiff, url: &str, emoji_feedback: bool)
    ensures
        final(s)@ == old(s)@ + row_text(d@, url@, emoji_feedback),
{
    s.append("| ");
    s.append(d.scenario_name.as_str());
    s.append(" | ");
    append_value(s, d.baseline_result);
    s.append(" | ");
    append_value(s, d.candidate_result);
    s.append(" | ");
    let diff = d.diff();
    if emoji_feedback && diff > 0 {
        s.append("⚠️ ");
    } else if emoji_feedback && diff < 0 {
        s.append("✅ ");
    }
    s.append("[");
    append_signed_value(s, diff);
    s.append("](");
    s.append(url);
    s.append("/");
    s.append(d.scenario_name.as_str());
    s.append(") (");
    append_percent(s, d.diff_ratio());
    s.append("%) | ");
    append_percent(s, d.significance_threshold as i128);
    s.append("% |\n");
    proof {
        assert(s@ =~= old(s)@ + row_text(d@, url@, emoji_feedback));
    }
}

/// Append the markdown table of the given diffs.
pub fn table(s: &mut String, diffs: &Vec<ScenarioDiff>, cachegrind_diff_url: &str, emoji_feedback: bool)
    ensures
        final(s)@ == old(s)@ + table_text(diff_views(diffs@), cachegrind_diff_url@, emoji_feedback),
{
    let ghost dv = diff_views(diffs@);
    s.append("| Scenario | Baseline | Candidate | Diff | Threshold |\n");
    s.append("| --- | ---: | ---: | ---: | ---: |\n");
    let ghost header_done = s@;
    let mut k: usize = 0;
    proof {
        assert(dv.take(0) =~= Seq::<DiffModel>::empty());
    }
    while k < diffs.len()
        invariant
            k <= diffs@.len(),
            dv == diff_views(diffs@),
            dv.len() == diffs@.len(),
            s@ == header_done + rows_text(dv.take(k as int), cachegrind_diff_url@, emoji_feedback),
        decreases diffs@.len() - k,
    {
        proof {
            assert(dv.take(k as int + 1).drop_last() =~= dv.take(k as int));
            assert(dv.take(k as int + 1).last() == dv[k as int]);
        }
        append_row(s, &diffs[k], cachegrind_diff_url, emoji_feedback);
        proof {
            assert(s@ =~= header_done + rows_text(
                dv.take(k as int + 1),
                cachegrind_diff_url@,
                emoji_feedback,
            ));
        }
        k += 1;
    }
    proof {
        assert(dv.take(dv.len() as int) =~= dv);
        assert(s@ =~= old(s)@ + table_text(dv, cachegrind_diff_url@, emoji_feedback));
    }
}

/// Render the markdown report of a comparison.
#[verifier::rlimit(100)]
pub fn print_report(result: CompareResult, cachegrind_diff_url: &str) -> (r: String)
    ensures
        r@ == report_text(
            diff_views(result.diffs@),
            views_of(result.scenarios_missing_in_baseline@),
            cachegrind_diff_url@,
        ),
{
    let ghost dv = diff_views(result.diffs@);
    let ghost mv = views_of(result.scenarios_missing_in_baseline@);
    let CompareResult { diffs, scenarios_missing_in_baseline } = result;
    let (significant, negligible) = split_on_threshold(diffs);

    let mut s = String::new();
    s.append("# Benchmark results\n");
    if scenarios_missing_in_baseline.len() > 0 {
        s.append("### ⚠️ Warning: missing benchmarks\n");
        s.append("\n");
        s.append(
            "The following benchmark scenarios are present in the candidate but not in the baseline:\n",
        );
        s.append("\n");
        let ghost before_items = s@;
        let mut k: usize = 0;
        proof {
            assert(mv.take(0) =~= Seq::<Seq<char>>::empty());
        }
        while k < scenarios_missing_in_baseline.len()
            invariant
                k <= scenarios_missing_in_baseline@.len(),
                mv == views_of(scenarios_missing_in_baseline@),
                mv.len() == scenarios_missing_in_baseline@.len(),
                s@ == before_items + missing_items_text(mv.take(k as int)),
            decreases scenarios_missing_in_baseline@.len() - k,
        {
            proof {
                assert(mv.take(k as int + 1).drop_last() =~= mv.take(k as int));
                assert(mv.take(k as int + 1).last() == mv[k as int]);
            }
            s.append("* ");
            s.append(scenarios_missing_in_baseline[k].as_str());
            s.append("\n");
            proof {
                assert(s@ =~= before_items + missing_items_text(mv.take(k as int + 1)));
            }
            k += 1;
        }
        proof {
            assert(mv.take(mv.len() as int) =~= mv);
        }
    }
    let ghost after_missing = s@;
    proof {
        assert(after_missing =~= "# Benchmark results\n"@ + (if mv.len() > 0 {
            "### ⚠️ Warning: missing benchmarks\n"@ + "\n"@
                + "The following benchmark scenarios are present in the candidate but not in the baseline:\n"@
                + "\n"@ + missing_items_text(mv)
        } else {
            Seq::<char>::empty()
        }));
    }

    s.append("## Significant instruction count differences\n");
    if significant.len() == 0 {
        s.append("_There are no significant instruction count differences_\n");
        proof {
            assert(diff_views(significant@).len() == 0);
        }
    } else {
        table(&mut s, &significant, cachegrind_diff_url, true);
    }
    let ghost after_sig = s@;
    proof {
        let sig = sort_by_ratio_desc(significant_of(dv));
        assert(after_sig =~= after_missing + "## Significant instruction count differences\n"@ + (
        if sig.len() == 0 {
            "_There are no significant instruction count differences_\n"@
        } else {
            crate::report::table_text(sig, cachegrind_diff_url@, true)
        }));
    }

    s.append("## Other instruction count differences\n");
    if negligible.len() == 0 {
        s.append("_There are no other instruction count differences_\n");
        proof {
            assert(diff_views(negligible@).len() == 0);
        }
    } else {
        s.append("<details>\n");
        s.append("<summary>Click to expand</summary>\n\n");
        table(&mut s, &negligible, cachegrind_diff_url, false);
        s.append("</details>\n\n");
    }
    proof {
        let neg = sort_by_ratio_desc(negligible_of(dv));
        assert(s@ =~= after_sig + "## Other instruction count differences\n"@ + (if neg.len()
            == 0 {
            "_There are no other instruction count differences_\n"@
        } else {
            "<details>\n"@ + "<summary>Click to expand</summary>\n\n"@ + crate::report::table_text(
                neg,
                cachegrind_diff_url@,
                false,
            ) + "</details>\n\n"@
        }));
        assert(s@ =~= report_text(dv, mv, cachegrind_diff_url@));
    }
    s
}

/// Truncate a comment to the platform ceiling, in characters.
pub fn maybe_truncate_comment(comment: &mut String)
    ensures
        old(comment)@.len() > MAX_COMMENT_LEN ==> final(comment)@ == old(comment)@.take(
            MAX_COMMENT_LEN as int,
        ),
        old(comment)@.len() <= MAX_COMMENT_LEN ==> final(comment)@ == old(comment)@,
{
    let n = comment.as_str().unicode_len();
    if n > MAX_COMMENT_LEN {
        let t = comment.as_str().substring_char(0, MAX_COMMENT_LEN).to_owned();
        *comment = t;
        proof {
            assert(comment@ =~= old(comment)@.take(MAX_COMMENT_LEN as int));
        }
    }
}

} // verus!
