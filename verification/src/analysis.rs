//! The significance analyzer: derives a per-scenario noise threshold from a
//! chronological history of measurements, by inter-quartile-range fencing of
//! the consecutive percent changes (multiplier 3), floored at the default
//! noise threshold. Scenarios with fewer than ten historical values get no
//! threshold.
//!
//! Values, changes and thresholds are fixed-point integers in millionths.
use vstd::prelude::*;

use crate::db::{benchresult_views, BenchResult};
use crate::order::{insert_by_key, lemma_insert_by_key_at, lemma_insert_by_key_sorted,
    sorted_by_key};

verus! {

/// The identity key under which change sequences are sorted.
pub open spec fn u64_key() -> spec_fn(u64) -> int {
    |x: u64| x as int
}

/// The percent change from `a` to `b`: `|a - b| * SCALE / a`, saturated at
/// `u64::MAX`. A zero `a` gives an infinite change when `b` differs, and
/// zero otherwise.
pub open spec fn pct_change(a: u64, b: u64) -> u64 {
    if a == 0 {
        if b == 0 {
            0u64
        } else {
            u64::MAX
        }
    } else {
        let d = if a >= b {
            a - b
        } else {
            b - a
        };
        let c = (d * crate::SCALE) / a as int;
        if c > u64::MAX {
            u64::MAX
        } else {
            c as u64
        }
    }
}

/// The consecutive percent changes of a value history.
pub open spec fn changes_of(vals: Seq<u64>) -> Seq<u64> {
    if vals.len() < 2 {
        Seq::empty()
    } else {
        Seq::new((vals.len() - 1) as nat, |i: int| pct_change(vals[i], vals[i + 1]))
    }
}

/// The history sorted ascending, realized by repeated ordered insertion.
pub open spec fn sorted_changes(s: Seq<u64>) -> Seq<u64>
    decreases s.len(),
{
    if s.len() == 0 {
        Seq::empty()
    } else {
        insert_by_key(sorted_changes(s.drop_last()), s.last(), u64_key())
    }
}

/// The threshold derived from a sorted change sequence:
/// `max(q3 + 3 * (q3 - q1), DEFAULT_NOISE_THRESHOLD)`, saturated at
/// `u64::MAX`, with `q1 = s[n/4]` and `q3 = s[3n/4]`.
pub open spec fn threshold_from_changes(s: Seq<u64>) -> u64
    recommends
        s.len() > 0,
{
    let q1 = s[(s.len() / 4) as int];
    let q3 = s[(s.len() * 3 / 4) as int];
    let t = q3 + 3 * (q3 - q1);
    if t < crate::DEFAULT_NOISE_THRESHOLD {
        crate::DEFAULT_NOISE_THRESHOLD
    } else if t > u64::MAX {
        u64::MAX
    } else {
        t as u64
    }
}

/// The values recorded under `name`, in history order.
pub open spec fn values_of(history: Seq<(Seq<char>, u64)>, name: Seq<char>) -> Seq<u64>
    decreases history.len(),
{
    if history.len() == 0 {
        Seq::empty()
    } else if history.last().0 == name {
        values_of(history.drop_last(), name).push(history.last().1)
    } else {
        values_of(history.drop_last(), name)
    }
}

/// The significance threshold for one scenario, if its history is long
/// enough.
pub open spec fn significance_threshold_for(
    history: Seq<(Seq<char>, u64)>,
    name: Seq<char>,
) -> Option<u64> {
    let vals = values_of(history, name);
    if vals.len() < 10 {
        None
    } else {
        Some(threshold_from_changes(sorted_changes(changes_of(vals))))
    }
}

/// The threshold recorded for `name`, or `default` when absent.
pub open spec fn lookup_threshold(
    thresholds: Seq<(Seq<char>, u64)>,
    name: Seq<char>,
    default: u64,
) -> u64
    decreases thresholds.len(),
{
    if thresholds.len() == 0 {
        default
    } else if thresholds[0].0 == name {
        thresholds[0].1
    } else {
        lookup_threshold(thresholds.drop_first(), name, default)
    }
}

/// The views of a threshold table.
pub open spec fn threshold_views(s: Seq<(String, u64)>) -> Seq<(Seq<char>, u64)> {
    s.map_values(|p: (String, u64)| (p.0@, p.1))
}

/// Minimum-size law: a scenario with fewer than ten historical values gets
/// no threshold.
pub proof fn lemma_significance_minimum_size(history: Seq<(Seq<char>, u64)>, name: Seq<char>)
    requires
        values_of(history, name).len() < 10,
    ensures
        significance_threshold_for(history, name) is None,
{
}

/// Sorting a constant sequence leaves it unchanged.
proof fn lemma_sorted_changes_constant(s: Seq<u64>, c: u64)
    requires
        forall|i: int| 0 <= i < s.len() ==> s[i] == c,
    ensures
        sorted_changes(s) == s,
    decreases s.len(),
{
    if s.len() > 0 {
        let dl = s.drop_last();
        lemma_sorted_changes_constant(dl, c);
        assert(sorted_changes(s) =~= s);
    }
}

/// Significance floor law: a history whose values for a scenario are all
/// equal (and long enough) yields exactly the default noise threshold.
pub proof fn lemma_significance_floor(history: Seq<(Seq<char>, u64)>, name: Seq<char>, c: u64)
    requires
        values_of(history, name).len() >= 10,
        forall|i: int|
            0 <= i < values_of(history, name).len() ==> values_of(history, name)[i] == c,
    ensures
        significance_threshold_for(history, name) == Some(crate::DEFAULT_NOISE_THRESHOLD),
{
    let vals = values_of(history, name);
    let ch = changes_of(vals);
    assert(pct_change(c, c) == 0) by {
        if c != 0 {
            assert((0 * crate::SCALE) / c as int == 0);
        }
    }
    assert(forall|i: int| 0 <= i < ch.len() ==> ch[i] == 0);
    lemma_sorted_changes_constant(ch, 0);
    let sorted = sorted_changes(ch);
    assert(sorted.len() >= 9);
    assert(sorted[(sorted.len() / 4) as int] == 0);
    assert(sorted[(sorted.len() * 3 / 4) as int] == 0);
}

/// The percent change from `a` to `b`, saturated at `u64::MAX`.
pub fn pct_change_exec(a: u64, b: u64) -> (r: u64)
    ensures
        r == pct_change(a, b),
{
    if a == 0 {
        if b == 0 {
            0u64
        } else {
            u64::MAX
        }
    } else {
        let d = if a >= b {
            a - b
        } else {
            b - a
        };
        proof {
            assert((d as u128) * (crate::SCALE as u128) <= (u64::MAX as u128) * (
            crate::SCALE as u128) < u128::MAX) by (nonlinear_arith)
                requires
                    d <= u64::MAX,
            ;
        }
        let num: u128 = d as u128 * crate::SCALE as u128;
        let c = num / (a as u128);
        if c > u64::MAX as u128 {
            u64::MAX
        } else {
            c as u64
        }
    }
}

/// Sort a change sequence ascending by ordered insertion.
fn sort_changes(input: &Vec<u64>) -> (r: Vec<u64>)
    ensures
        r@ == sorted_changes(input@),
        sorted_by_key(r@, u64_key()),
        r@.len() == input@.len(),
{
    let mut out: Vec<u64> = Vec::new();
    let mut i: usize = 0;
    proof {
        assert(input@.take(0) =~= Seq::<u64>::empty());
    }
    while i < input.len()
        invariant
            i <= input@.len(),
            out@ == sorted_changes(input@.take(i as int)),
            out@.len() == i,
            sorted_by_key(out@, u64_key()),
        decreases input@.len() - i,
    {
        let x = input[i];
        let mut p: usize = out.len();
        while p > 0 && out[p - 1] > x
            invariant
                p <= out@.len(),
                forall|j: int| p <= j < out@.len() ==> out@[j] > x,
                out@ == sorted_changes(input@.take(i as int)),
                out@.len() == i,
                i < input@.len(),
                x == input@[i as int],
                sorted_by_key(out@, u64_key()),
            decreases p,
        {
            p -= 1;
        }
        proof {
            lemma_insert_by_key_at(out@, x, u64_key(), p as int);
            lemma_insert_by_key_sorted(out@, x, u64_key(), p as int);
            assert(input@.take(i as int + 1).drop_last() =~= input@.take(i as int));
            assert(input@.take(i as int + 1).last() == input@[i as int]);
        }
        out.insert(p, x);
        proof {
            assert(out@ == sorted_changes(input@.take(i as int + 1)));
        }
        i += 1;
    }
    proof {
        assert(input@.take(input@.len() as int) =~= input@);
    }
    out
}

/// The threshold for one sorted change sequence.
fn threshold_from_sorted(s: &Vec<u64>) -> (r: u64)
    requires
        s@.len() > 0,
        sorted_by_key(s@, u64_key()),
    ensures
        r == threshold_from_changes(s@),
{
    let n = s.len();
    let i1 = n / 4;
    let i3 = ((n as u128 * 3) / 4) as usize;
    proof {
        assert((n as int * 3) / 4 < n as int && n as int / 4 <= (n as int * 3) / 4)
            by (nonlinear_arith)
            requires
                n as int >= 1,
        ;
        assert(i3 as int == (s@.len() * 3 / 4) as int);
    }
    let q1 = s[i1];
    let q3 = s[i3];
    proof {
        assert(u64_key()(s@[i1 as int]) <= u64_key()(s@[i3 as int]));
    }
    let iqr = q3 - q1;
    let t: u128 = q3 as u128 + 3u128 * iqr as u128;
    if t < crate::DEFAULT_NOISE_THRESHOLD as u128 {
        crate::DEFAULT_NOISE_THRESHOLD
    } else if t > u64::MAX as u128 {
        u64::MAX
    } else {
        t as u64
    }
}

/// The view of one history step appended to a prefix.
proof fn lemma_values_of_step(hist: Seq<(Seq<char>, u64)>, k: int, name: Seq<char>)
    requires
        0 <= k < hist.len(),
    ensures
        values_of(hist.take(k + 1), name) == (if hist[k].0 == name {
            values_of(hist.take(k), name).push(hist[k].1)
        } else {
            values_of(hist.take(k), name)
        }),
{
    assert(hist.take(k + 1).drop_last() =~= hist.take(k));
    assert(hist.take(k + 1).last() == hist[k]);
}

/// Compute the per-scenario significance thresholds from a chronological
/// result history: scenarios are grouped by name, groups shorter than ten
/// values are dropped, and each remaining group's threshold is derived from
/// its sorted consecutive percent changes. The returned table holds exactly
/// the scenarios with a threshold, each once.
#[verifier::rlimit(80)]
pub fn calculate_significance_thresholds(historical_results: &Vec<BenchResult>) -> (r: Vec<
    (String, u64),
>)
    ensures
        forall|i: int|
            0 <= i < r@.len() ==> significance_threshold_for(
                benchresult_views(historical_results@),
                (#[trigger] r@[i]).0@,
            ) == Some(r@[i].1),
        forall|name: Seq<char>|
            (#[trigger] significance_threshold_for(
                benchresult_views(historical_results@),
                name,
            )) matches Some(t) ==> exists|i: int| 0 <= i < r@.len() && r@[i].0@ == name && r@[i].1 == t,
        forall|i: int, j: int| 0 <= i < j < r@.len() ==> r@[i].0@ != r@[j].0@,
{
    let ghost hist = benchresult_views(historical_results@);

    // Group values by scenario name, preserving history order.
    let mut groups: Vec<(String, Vec<u64>)> = Vec::new();
    let mut k: usize = 0;
    proof {
        assert(hist.take(0) =~= Seq::<(Seq<char>, u64)>::empty());
    }
    while k < historical_results.len()
        invariant
            k <= historical_results@.len(),
            hist == benchresult_views(historical_results@),
            hist.len() == historical_results@.len(),
            forall|g: int|
                0 <= g < groups@.len() ==> (#[trigger] groups@[g]).1@ == values_of(
                    hist.take(k as int),
                    groups@[g].0@,
                ),
            forall|g1: int, g2: int|
                0 <= g1 < g2 < groups@.len() ==> groups@[g1].0@ != groups@[g2].0@,
            forall|name: Seq<char>|
                values_of(hist.take(k as int), name).len() > 0 ==> exists|g: int|
                    0 <= g < groups@.len() && (#[trigger] groups@[g]).0@ == name,
        decreases historical_results@.len() - k,
    {
        let name = &historical_results[k].name;
        let value = historical_results[k].result;
        proof {
            assert(hist[k as int] == historical_results@[k as int]@);
        }
        let mut g: usize = 0;
        let mut found = false;
        while g < groups.len() && !found
            invariant
                g <= groups@.len(),
                !found ==> forall|g2: int| 0 <= g2 < g ==> groups@[g2].0@ != name@,
                found ==> g < groups@.len() && groups@[g as int].0@ == name@,
            decreases groups@.len() - g + (if found { 0int } else { 1int }),
        {
            if crate::db::str_eq(groups[g].0.as_str(), name.as_str()) {
                found = true;
            } else {
                g += 1;
            }
        }
        let ghost groups0 = groups@;
        if found {
            groups[g].1.push(value);
            proof {
                assert(groups@[g as int].1@ == groups0[g as int].1@.push(value));
                assert(groups@.len() == groups0.len());
                assert(forall|g2: int|
                    0 <= g2 < groups@.len() && g2 != g ==> groups@[g2] == groups0[g2]);
            }
        } else {
            let mut vals: Vec<u64> = Vec::new();
            vals.push(value);
            groups.push((name.clone(), vals));
            proof {
                assert(groups@.len() == groups0.len() + 1);
                assert(groups@[groups0.len() as int].0@ == name@);
                assert(groups@[groups0.len() as int].1@ =~= values_of(
                    hist.take(k as int),
                    name@,
                ).push(value));
                assert(forall|g2: int| 0 <= g2 < groups0.len() ==> groups@[g2] == groups0[g2]);
            }
        }
        proof {
            assert forall|g2: int| 0 <= g2 < groups@.len() implies (#[trigger] groups@[g2]).1@
                == values_of(hist.take(k as int + 1), groups@[g2].0@) by {
                lemma_values_of_step(hist, k as int, groups@[g2].0@);
            }
            assert forall|name2: Seq<char>|
                (#[trigger] values_of(hist.take(k as int + 1), name2)).len() > 0 implies exists|
                g2: int,
            |
                0 <= g2 < groups@.len() && (#[trigger] groups@[g2]).0@ == name2 by {
                lemma_values_of_step(hist, k as int, name2);
                if values_of(hist.take(k as int), name2).len() > 0 {
                    let g2 = choose|g2: int|
                        0 <= g2 < groups0.len() && (#[trigger] groups0[g2]).0@ == name2;
                    assert(groups@[g2].0@ == name2);
                } else {
                    assert(hist[k as int].0 == name2);
                    if found {
                        assert(groups@[g as int].0@ == name2);
                    } else {
                        assert(groups@[groups0.len() as int].0@ == name2);
                    }
                }
            }
        }
        k += 1;
    }
    proof {
        assert(hist.take(hist.len() as int) =~= hist);
    }

    // Derive a threshold for each group with at least ten values.
    let mut out: Vec<(String, u64)> = Vec::new();
    let mut g: usize = 0;
    while g < groups.len()
        invariant
            g <= groups@.len(),
            hist == benchresult_views(historical_results@),
            forall|g2: int|
                0 <= g2 < groups@.len() ==> (#[trigger] groups@[g2]).1@ == values_of(
                    hist,
                    groups@[g2].0@,
                ),
            forall|g1: int, g2: int|
                0 <= g1 < g2 < groups@.len() ==> groups@[g1].0@ != groups@[g2].0@,
            forall|name: Seq<char>|
                values_of(hist, name).len() > 0 ==> exists|g2: int|
                    0 <= g2 < groups@.len() && (#[trigger] groups@[g2]).0@ == name,
            forall|i: int|
                0 <= i < out@.len() ==> significance_threshold_for(
                    hist,
                    (#[trigger] out@[i]).0@,
                ) == Some(out@[i].1),
            forall|i: int|
                0 <= i < out@.len() ==> exists|g2: int|
                    0 <= g2 < g && (#[trigger] out@[i]).0@ == groups@[g2].0@,
            forall|g2: int|
                0 <= g2 < g && values_of(hist, (#[trigger] groups@[g2]).0@).len() >= 10
                    ==> exists|i: int|
                    0 <= i < out@.len() && (#[trigger] out@[i]).0@ == groups@[g2].0@,
            forall|i: int, j: int| 0 <= i < j < out@.len() ==> out@[i].0@ != out@[j].0@,
        decreases groups@.len() - g,
    {
        let vals = &groups[g].1;
        if vals.len() >= 10 {
            // Consecutive percent changes.
            let mut changes: Vec<u64> = Vec::new();
            let mut i: usize = 0;
            while i < vals.len() - 1
                invariant
                    vals@.len() >= 10,
                    i <= vals@.len() - 1,
                    changes@.len() == i,
                    forall|t: int|
                        0 <= t < i ==> changes@[t] == pct_change(vals@[t], vals@[t + 1]),
                decreases vals@.len() - 1 - i,
            {
                let c = pct_change_exec(vals[i], vals[i + 1]);
                changes.push(c);
                i += 1;
            }
            proof {
                assert(changes@ =~= changes_of(vals@));
            }
            let sorted = sort_changes(&changes);
            let thr = threshold_from_sorted(&sorted);
            let ghost out0 = out@;
            out.push((groups[g].0.clone(), thr));
            proof {
                assert(out@[out0.len() as int].0@ == groups@[g as int].0@);
                assert(significance_threshold_for(hist, groups@[g as int].0@) == Some(thr));
                assert forall|i2: int, j2: int| 0 <= i2 < j2 < out@.len() implies out@[i2].0@
                    != out@[j2].0@ by {
                    if j2 < out0.len() {
                    } else {
                        let g2 = choose|g2: int|
                            0 <= g2 < g && (#[trigger] out@[i2]).0@ == groups@[g2].0@;
                        assert(groups@[g2].0@ != groups@[g as int].0@);
                    }
                }
                assert forall|g2: int|
                    0 <= g2 < g + 1 && values_of(hist, (#[trigger] groups@[g2]).0@).len()
                        >= 10 implies exists|i: int|
                    0 <= i < out@.len() && (#[trigger] out@[i]).0@ == groups@[g2].0@ by {
                    if g2 == g {
                        assert(out@[out0.len() as int].0@ == groups@[g2].0@);
                    } else {
                        let i0 = choose|i: int|
                            0 <= i < out0.len() && (#[trigger] out0[i]).0@ == groups@[g2].0@;
                        assert(out@[i0].0@ == groups@[g2].0@);
                    }
                }
            }
        } else {
            proof {
                assert(groups@[g as int].1@ == values_of(hist, groups@[g as int].0@));
                assert forall|g2: int|
                    0 <= g2 < g + 1 && values_of(hist, (#[trigger] groups@[g2]).0@).len()
                        >= 10 implies exists|i: int|
                    0 <= i < out@.len() && (#[trigger] out@[i]).0@ == groups@[g2].0@ by {
                    if g2 == g {
                        assert(groups@[g2].1@.len() >= 10);
                        assert(false);
                    }
                }
            }
        }
        g += 1;
    }
    proof {
        assert forall|name: Seq<char>|
            (#[trigger] significance_threshold_for(hist, name)) is Some implies exists|i: int|
            0 <= i < out@.len() && out@[i].0@ == name && Some(out@[i].1)
                == significance_threshold_for(hist, name) by {
            assert(values_of(hist, name).len() >= 10);
            let g2 = choose|g2: int|
                0 <= g2 < groups@.len() && (#[trigger] groups@[g2]).0@ == name;
            let i = choose|i: int|
                0 <= i < out@.len() && (#[trigger] out@[i]).0@ == groups@[g2].0@;
            assert(significance_threshold_for(hist, out@[i].0@) == Some(out@[i].1));
        }
    }
    out
}

/// The threshold recorded for `name`, or `default` when absent.
pub fn threshold_or_default(thresholds: &Vec<(String, u64)>, name: &str, default: u64) -> (r: u64)
    ensures
        r == lookup_threshold(threshold_views(thresholds@), name@, default),
{
    let ghost tv = threshold_views(thresholds@);
    proof {
        assert(tv.skip(0) =~= tv);
    }
    let mut k: usize = 0;
    while k < thresholds.len()
        invariant
            k <= thresholds@.len(),
            tv == threshold_views(thresholds@),
            tv.len() == thresholds@.len(),
            lookup_threshold(tv, name@, default) == lookup_threshold(
                tv.skip(k as int),
                name@,
                default,
            ),
        decreases thresholds@.len() - k,
    {
        proof {
            assert(tv.skip(k as int)[0] == tv[k as int]);
        }
        if crate::db::str_eq(thresholds[k].0.as_str(), name) {
            return thresholds[k].1;
        }
        proof {
            assert(tv.skip(k as int).drop_first() =~= tv.skip(k as int + 1));
        }
        k += 1;
    }
    proof {
        assert(tv.skip(k as int).len() == 0);
    }
    default
}

} // verus!
