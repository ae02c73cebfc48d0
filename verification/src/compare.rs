//! The benchmark comparison engine: pairs candidate measurements with
//! baseline measurements, attaches significance thresholds and cachegrind
//! diff texts, and splits diffs into significant and negligible halves
//! ordered by diff ratio.
use vstd::prelude::*;

use crate::analysis::{lookup_threshold, threshold_views};
use crate::db::{diff_views, ratio_of, str_eq, DiffModel, ScenarioDiff, ScenarioKind};
use crate::order::{insert_by_key, lemma_insert_by_key_at, lemma_insert_by_key_sorted,
    sorted_by_key};

verus! {

/// An error of the comparison step: the cachegrind diff text for a scenario
/// present on both sides is missing.
#[derive(Debug)]
pub struct CompareError {
    pub scenario_name: String,
}

/// The first value recorded under `name`.
pub open spec fn lookup_value(m: Seq<(Seq<char>, u64)>, name: Seq<char>) -> Option<u64>
    decreases m.len(),
{
    if m.len() == 0 {
        None
    } else if m[0].0 == name {
        Some(m[0].1)
    } else {
        lookup_value(m.drop_first(), name)
    }
}

/// The first text recorded under `name`.
pub open spec fn lookup_text(m: Seq<(Seq<char>, Seq<char>)>, name: Seq<char>) -> Option<Seq<char>>
    decreases m.len(),
{
    if m.len() == 0 {
        None
    } else if m[0].0 == name {
        Some(m[0].1)
    } else {
        lookup_text(m.drop_first(), name)
    }
}

/// The views of a scenario-to-text table.
pub open spec fn text_views(s: Seq<(String, String)>) -> Seq<(Seq<char>, Seq<char>)> {
    s.map_values(|p: (String, String)| (p.0@, p.1@))
}

/// The diff built for one scenario present on both sides.
pub open spec fn diff_record(
    name: Seq<char>,
    baseline_result: u64,
    candidate_result: u64,
    threshold: u64,
    text: Seq<char>,
) -> DiffModel {
    DiffModel {
        scenario_name: name,
        scenario_kind: ScenarioKind::Icount,
        baseline_result,
        candidate_result,
        significance_threshold: threshold,
        cachegrind_diff: text,
    }
}

/// The comparison of the two measurement sets, in candidate order: for each
/// candidate scenario, a diff when the baseline has it (failing when its
/// cachegrind text is missing), else an entry in the missing list.
pub open spec fn compare_spec(
    baseline: Seq<(Seq<char>, u64)>,
    candidate: Seq<(Seq<char>, u64)>,
    thresholds: Seq<(Seq<char>, u64)>,
    texts: Seq<(Seq<char>, Seq<char>)>,
) -> Result<(Seq<DiffModel>, Seq<Seq<char>>), Seq<char>>
    decreases candidate.len(),
{
    if candidate.len() == 0 {
        Ok((Seq::empty(), Seq::empty()))
    } else {
        let name = candidate[0].0;
        let value = candidate[0].1;
        match compare_spec(baseline, candidate.drop_first(), thresholds, texts) {
            Err(e) => Err(e),
            Ok((diffs, missing)) => match lookup_value(baseline, name) {
                None => Ok((diffs, seq![name] + missing)),
                Some(b) => match lookup_text(texts, name) {
                    None => Err(name),
                    Some(txt) => Ok(
                        (
                            seq![
                                diff_record(
                                    name,
                                    b,
                                    value,
                                    lookup_threshold(
                                        thresholds,
                                        name,
                                        crate::DEFAULT_NOISE_THRESHOLD,
                                    ),
                                    txt,
                                ),
                            ] + diffs,
                            missing,
                        ),
                    ),
                },
            },
        }
    }
}

/// An error of the comparison propagates from any suffix to the whole.
proof fn lemma_compare_err_propagates(
    baseline: Seq<(Seq<char>, u64)>,
    candidate: Seq<(Seq<char>, u64)>,
    thresholds: Seq<(Seq<char>, u64)>,
    texts: Seq<(Seq<char>, Seq<char>)>,
    j: int,
)
    requires
        0 <= j <= candidate.len(),
        compare_spec(baseline, candidate.skip(j), thresholds, texts) is Err,
    ensures
        compare_spec(baseline, candidate, thresholds, texts) == compare_spec(
            baseline,
            candidate.skip(j),
            thresholds,
            texts,
        ),
    decreases j,
{
    if j > 0 {
        assert(candidate.skip(j - 1).drop_first() =~= candidate.skip(j));
        assert(candidate.skip(j - 1).len() > 0);
        assert(compare_spec(baseline, candidate.skip(j - 1), thresholds, texts) == compare_spec(
            baseline,
            candidate.skip(j),
            thresholds,
            texts,
        ));
        lemma_compare_err_propagates(baseline, candidate, thresholds, texts, j - 1);
    } else {
        assert(candidate.skip(0) =~= candidate);
    }
}

/// The first value recorded under `name`, or absent.
pub fn value_lookup(m: &Vec<(String, u64)>, name: &str) -> (r: Option<u64>)
    ensures
        r == lookup_value(crate::analysis::threshold_views(m@), name@),
{
    let ghost mv = crate::analysis::threshold_views(m@);
    proof {
        assert(mv.skip(0) =~= mv);
    }
    let mut k: usize = 0;
    while k < m.len()
        invariant
            k <= m@.len(),
            mv == crate::analysis::threshold_views(m@),
            mv.len() == m@.len(),
            lookup_value(mv, name@) == lookup_value(mv.skip(k as int), name@),
        decreases m@.len() - k,
    {
        proof {
            assert(mv.skip(k as int)[0] == mv[k as int]);
        }
        if str_eq(m[k].0.as_str(), name) {
            return Some(m[k].1);
        }
        proof {
            assert(mv.skip(k as int).drop_first() =~= mv.skip(k as int + 1));
        }
        k += 1;
    }
    proof {
        assert(mv.skip(k as int).len() == 0);
    }
    None
}

/// The first text recorded under `name`, or absent.
fn text_lookup(m: &Vec<(String, String)>, name: &str) -> (r: Option<String>)
    ensures
        r matches Some(s) ==> lookup_text(text_views(m@), name@) == Some(s@),
        r is None ==> lookup_text(text_views(m@), name@) is None,
{
    let ghost mv = text_views(m@);
    proof {
        assert(mv.skip(0) =~= mv);
    }
    let mut k: usize = 0;
    while k < m.len()
        invariant
            k <= m@.len(),
            mv == text_views(m@),
            mv.len() == m@.len(),
            lookup_text(mv, name@) == lookup_text(mv.skip(k as int), name@),
        decreases m@.len() - k,
    {
        proof {
            assert(mv.skip(k as int)[0] == mv[k as int]);
        }
        if str_eq(m[k].0.as_str(), name) {
            return Some(m[k].1.clone());
        }
        proof {
            assert(mv.skip(k as int).drop_first() =~= mv.skip(k as int + 1));
        }
        k += 1;
    }
    proof {
        assert(mv.skip(k as int).len() == 0);
    }
    None
}

/// Compare the candidate measurements against the baseline: one diff per
/// scenario present on both sides (with its threshold and cachegrind text),
/// and the list of scenarios missing in the baseline, in candidate order.
/// Fails with the scenario name when a needed cachegrind text is absent.
pub fn compare_results(
    baseline: &Vec<(String, u64)>,
    candidate: &Vec<(String, u64)>,
    significance_thresholds: &Vec<(String, u64)>,
    cachegrind_texts: &Vec<(String, String)>,
) -> (r: Result<(Vec<ScenarioDiff>, Vec<String>), CompareError>)
    ensures
        ({
            let spec_r = compare_spec(
                threshold_views(baseline@),
                threshold_views(candidate@),
                threshold_views(significance_thresholds@),
                text_views(cachegrind_texts@),
            );
            match r {
                Ok((diffs, missing)) => spec_r matches Ok(p) && diff_views(diffs@) == p.0
                    && crate::trusted::views_of(missing@) == p.1,
                Err(e) => spec_r == Err::<(Seq<DiffModel>, Seq<Seq<char>>), Seq<char>>(
                    e.scenario_name@,
                ),
            }
        }),
{
    let ghost bv = threshold_views(baseline@);
    let ghost cv = threshold_views(candidate@);
    let ghost tv = threshold_views(significance_thresholds@);
    let ghost xv = text_views(cachegrind_texts@);

    let mut diffs: Vec<ScenarioDiff> = Vec::new();
    let mut missing: Vec<String> = Vec::new();
    let mut i: usize = candidate.len();

    // Walk the candidate list from the back, so the accumulators follow the
    // front-recursive specification.
    proof {
        assert(cv.skip(candidate@.len() as int).len() == 0);
        assert(diff_views(diffs@) =~= Seq::<DiffModel>::empty());
        assert(crate::trusted::views_of(missing@) =~= Seq::<Seq<char>>::empty());
    }
    while i > 0
        invariant
            i <= candidate@.len(),
            bv == threshold_views(baseline@),
            cv == threshold_views(candidate@),
            tv == threshold_views(significance_thresholds@),
            xv == text_views(cachegrind_texts@),
            cv.len() == candidate@.len(),
            compare_spec(bv, cv.skip(i as int), tv, xv) == Ok::<
                (Seq<DiffModel>, Seq<Seq<char>>),
                Seq<char>,
            >((diff_views(diffs@), crate::trusted::views_of(missing@))),
        decreases i,
    {
        let k = i - 1;
        proof {
            assert(cv.skip(k as int)[0] == cv[k as int]);
            assert(cv.skip(k as int).drop_first() =~= cv.skip(k as int + 1));
        }
        let name = &candidate[k].0;
        let value = candidate[k].1;
        match value_lookup(baseline, name.as_str()) {
            None => {
                let ghost missing0 = missing@;
                missing.insert(0, name.clone());
                proof {
                    assert(crate::trusted::views_of(missing@) =~= seq![name@]
                        + crate::trusted::views_of(missing0));
                }
            },
            Some(b) => {
                match text_lookup(cachegrind_texts, name.as_str()) {
                    None => {
                        proof {
                            assert(compare_spec(bv, cv.skip(k as int), tv, xv) == Err::<
                                (Seq<DiffModel>, Seq<Seq<char>>),
                                Seq<char>,
                            >(name@));
                            lemma_compare_err_propagates(bv, cv, tv, xv, k as int);
                        }
                        return Err(CompareError { scenario_name: name.clone() });
                    },
                    Some(txt) => {
                        let thr = crate::analysis::threshold_or_default(
                            significance_thresholds,
                            name.as_str(),
                            crate::DEFAULT_NOISE_THRESHOLD,
                        );
                        let ghost diffs0 = diffs@;
                        diffs.insert(0, ScenarioDiff {
                            scenario_name: name.clone(),
                            scenario_kind: ScenarioKind::Icount,
                            baseline_result: b,
                            candidate_result: value,
                            significance_threshold: thr,
                            cachegrind_diff: txt,
                        });
                        proof {
                            assert(diff_views(diffs@) =~= seq![
                                diff_record(name@, b, value, lookup_threshold(
                                    tv,
                                    name@,
                                    crate::DEFAULT_NOISE_THRESHOLD,
                                ), diff_views(diffs@)[0].cachegrind_diff),
                            ] + diff_views(diffs0));
                        }
                    },
                }
            },
        }
        i = k;
    }
    proof {
        assert(cv.skip(0) =~= cv);
    }
    Ok((diffs, missing))
}

/// The absolute value.
pub open spec fn abs_int(x: int) -> int {
    if x < 0 {
        -x
    } else {
        x
    }
}

/// A diff is significant when the magnitude of its diff ratio reaches its
/// significance threshold.
pub open spec fn is_significant(d: DiffModel) -> bool {
    abs_int(ratio_of(d)) >= d.significance_threshold
}

/// The significant diffs, in order.
pub open spec fn significant_of(s: Seq<DiffModel>) -> Seq<DiffModel>
    decreases s.len(),
{
    if s.len() == 0 {
        Seq::empty()
    } else if is_significant(s.last()) {
        significant_of(s.drop_last()).push(s.last())
    } else {
        significant_of(s.drop_last())
    }
}

/// The negligible diffs, in order.
pub open spec fn negligible_of(s: Seq<DiffModel>) -> Seq<DiffModel>
    decreases s.len(),
{
    if s.len() == 0 {
        Seq::empty()
    } else if !is_significant(s.last()) {
        negligible_of(s.drop_last()).push(s.last())
    } else {
        negligible_of(s.drop_last())
    }
}

/// The key under which diffs are sorted descending by ratio: a stable sort
/// descending by ratio is an ordered insertion under the negated ratio.
pub open spec fn neg_ratio_fn() -> spec_fn(DiffModel) -> int {
    |d: DiffModel| -ratio_of(d)
}

/// Diffs sorted by diff ratio descending, stable.
pub open spec fn sort_by_ratio_desc(s: Seq<DiffModel>) -> Seq<DiffModel>
    decreases s.len(),
{
    if s.len() == 0 {
        Seq::empty()
    } else {
        insert_by_key(sort_by_ratio_desc(s.drop_last()), s.last(), neg_ratio_fn())
    }
}

/// The magnitude of a diff ratio stays clear of the extreme value, so its
/// negation is always representable.
proof fn lemma_ratio_in_range(d: DiffModel)
    ensures
        i128::MIN < ratio_of(d) <= i128::MAX,
{
    if d.baseline_result > 0 {
        if d.candidate_result >= d.baseline_result {
            crate::db::lemma_ratio_num_bound(
                (d.candidate_result - d.baseline_result) as u128,
                d.baseline_result as u128,
            );
        } else {
            crate::db::lemma_ratio_num_bound(
                (d.baseline_result - d.candidate_result) as u128,
                d.baseline_result as u128,
            );
        }
    }
}

/// Sort diffs by ratio descending (stable) by ordered insertion.
fn sort_diffs_desc(input: Vec<ScenarioDiff>) -> (r: Vec<ScenarioDiff>)
    ensures
        diff_views(r@) == sort_by_ratio_desc(diff_views(input@)),
{
    let ghost iv = diff_views(input@);
    let mut out: Vec<ScenarioDiff> = Vec::new();
    let mut i: usize = 0;
    proof {
        assert(iv.take(0) =~= Seq::<DiffModel>::empty());
        assert(diff_views(out@) =~= Seq::<DiffModel>::empty());
    }
    while i < input.len()
        invariant
            i <= input@.len(),
            iv == diff_views(input@),
            iv.len() == input@.len(),
            diff_views(out@) == sort_by_ratio_desc(iv.take(i as int)),
            diff_views(out@).len() == i,
            sorted_by_key(diff_views(out@), neg_ratio_fn()),
        decreases input@.len() - i,
    {
        let x_ratio = input[i].diff_ratio();
        let mut p: usize = out.len();
        while p > 0 && out[p - 1].diff_ratio() < x_ratio
            invariant
                p <= out@.len(),
                i < input@.len(),
                x_ratio == ratio_of(iv[i as int]),
                forall|j: int|
                    p <= j < diff_views(out@).len() ==> ratio_of(
                        #[trigger] diff_views(out@)[j],
                    ) < ratio_of(iv[i as int]),
                diff_views(out@) == sort_by_ratio_desc(iv.take(i as int)),
                diff_views(out@).len() == i,
                iv == diff_views(input@),
                iv.len() == input@.len(),
                sorted_by_key(diff_views(out@), neg_ratio_fn()),
            decreases p,
        {
            proof {
                assert(diff_views(out@)[p - 1] == out@[p - 1]@);
            }
            p -= 1;
        }
        let ghost out0 = diff_views(out@);
        proof {
            assert(forall|j: int|
                p <= j < out0.len() ==> neg_ratio_fn()(#[trigger] out0[j]) > neg_ratio_fn()(
                    iv[i as int],
                ));
            if p > 0 {
                assert(out0[p - 1] == out@[p - 1]@);
                assert(neg_ratio_fn()(out0[p - 1]) <= neg_ratio_fn()(iv[i as int]));
            }
            lemma_insert_by_key_at(out0, iv[i as int], neg_ratio_fn(), p as int);
            lemma_insert_by_key_sorted(out0, iv[i as int], neg_ratio_fn(), p as int);
            assert(iv.take(i as int + 1).drop_last() =~= iv.take(i as int));
            assert(iv.take(i as int + 1).last() == iv[i as int]);
        }
        let d = input[i].duplicate();
        out.insert(p, d);
        proof {
            assert(diff_views(out@) =~= out0.insert(p as int, iv[i as int]));
            assert(diff_views(out@) == sort_by_ratio_desc(iv.take(i as int + 1)));
        }
        i += 1;
    }
    proof {
        assert(iv.take(iv.len() as int) =~= iv);
    }
    out
}

/// Split the diffs into those meeting their significance threshold and the
/// rest, each half sorted by diff ratio descending (stable).
pub fn split_on_threshold(diffs: Vec<ScenarioDiff>) -> (r: (Vec<ScenarioDiff>, Vec<ScenarioDiff>))
    ensures
        diff_views(r.0@) == sort_by_ratio_desc(significant_of(diff_views(diffs@))),
        diff_views(r.1@) == sort_by_ratio_desc(negligible_of(diff_views(diffs@))),
{
    let ghost dv = diff_views(diffs@);
    let mut significant: Vec<ScenarioDiff> = Vec::new();
    let mut negligible: Vec<ScenarioDiff> = Vec::new();
    let mut k: usize = 0;
    proof {
        assert(dv.take(0) =~= Seq::<DiffModel>::empty());
        assert(diff_views(significant@) =~= Seq::<DiffModel>::empty());
        assert(diff_views(negligible@) =~= Seq::<DiffModel>::empty());
    }
    while k < diffs.len()
        invariant
            k <= diffs@.len(),
            dv == diff_views(diffs@),
            dv.len() == diffs@.len(),
            diff_views(significant@) == significant_of(dv.take(k as int)),
            diff_views(negligible@) == negligible_of(dv.take(k as int)),
        decreases diffs@.len() - k,
    {
        proof {
            lemma_ratio_in_range(dv[k as int]);
            assert(dv.take(k as int + 1).drop_last() =~= dv.take(k as int));
            assert(dv.take(k as int + 1).last() == dv[k as int]);
        }
        let ratio = diffs[k].diff_ratio();
        let magnitude: i128 = if ratio < 0 {
            -ratio
        } else {
            ratio
        };
        let d = diffs[k].duplicate();
        if magnitude < diffs[k].significance_threshold as i128 {
            let ghost n0 = diff_views(negligible@);
            negligible.push(d);
            proof {
                assert(!is_significant(dv[k as int]));
                assert(diff_views(negligible@) =~= n0.push(dv[k as int]));
            }
        } else {
            let ghost s0 = diff_views(significant@);
            significant.push(d);
            proof {
                assert(is_significant(dv[k as int]));
                assert(diff_views(significant@) =~= s0.push(dv[k as int]));
            }
        }
        k += 1;
    }
    proof {
        assert(dv.take(dv.len() as int) =~= dv);
    }
    let significant = sort_diffs_desc(significant);
    let negligible = sort_diffs_desc(negligible);
    (significant, negligible)
}

} // verus!
