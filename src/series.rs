//! Series of data points turned into plot points, and flattened in drawing order.

use vstd::prelude::*;

use crate::model::{ChartError, DataPoint, PlotPoint};
use crate::time::{parse_timestamp, rfc3339_millis};

verus! {

/// The point's timestamp is a valid RFC 3339 date-time.
pub open spec fn parses(p: DataPoint) -> bool {
    rfc3339_millis(p.timestamp@) is Some
}

/// The point's place on the time axis, in epoch milliseconds.
pub open spec fn time_of(p: DataPoint) -> int {
    rfc3339_millis(p.timestamp@)->0
}

pub open spec fn all_parse(pts: Seq<DataPoint>) -> bool {
    forall|k: int| 0 <= k < pts.len() ==> parses(#[trigger] pts[k])
}

/// The series as sequences of points.
pub open spec fn series_view(ss: Seq<Vec<DataPoint>>) -> Seq<Seq<DataPoint>> {
    ss.map_values(|s: Vec<DataPoint>| s@)
}

/// All points of all series: series by series, each in its own order.
pub open spec fn flatten(ss: Seq<Seq<DataPoint>>) -> Seq<DataPoint>
    decreases ss.len(),
{
    if ss.len() == 0 {
        Seq::empty()
    } else {
        flatten(ss.drop_last()) + ss.last()
    }
}

pub proof fn lemma_flatten_step(ss: Seq<Seq<DataPoint>>, i: int)
    requires
        0 <= i < ss.len(),
    ensures
        flatten(ss.take(i + 1)) == flatten(ss.take(i)) + ss[i],
{
    assert(ss.take(i + 1).drop_last() =~= ss.take(i));
}

/// A point lies in the flattened points exactly when it lies in one series.
pub proof fn lemma_flatten_contains(ss: Seq<Seq<DataPoint>>, x: DataPoint)
    ensures
        flatten(ss).contains(x) <==> exists|i: int| 0 <= i < ss.len() && #[trigger] ss[i].contains(x),
    decreases ss.len(),
{
    if ss.len() > 0 {
        let init = ss.drop_last();
        lemma_flatten_contains(init, x);
        let f = flatten(ss);
        assert(f == flatten(init) + ss.last());
        if f.contains(x) {
            let idx = choose|idx: int| 0 <= idx < f.len() && f[idx] == x;
            if idx < flatten(init).len() {
                assert(flatten(init)[idx] == x);
                let i = choose|i: int| 0 <= i < init.len() && #[trigger] init[i].contains(x);
                assert(ss[i] == init[i]);
            } else {
                assert(ss.last()[idx - flatten(init).len()] == x);
                assert(ss[ss.len() - 1].contains(x));
            }
        }
        if exists|i: int| 0 <= i < ss.len() && #[trigger] ss[i].contains(x) {
            let i = choose|i: int| 0 <= i < ss.len() && #[trigger] ss[i].contains(x);
            let k = choose|k: int| 0 <= k < ss[i].len() && ss[i][k] == x;
            if i < ss.len() - 1 {
                assert(init[i] == ss[i]);
                let idx = choose|idx: int|
                    0 <= idx < flatten(init).len() && flatten(init)[idx] == x;
                assert(f[idx] == x);
            } else {
                assert(f[flatten(init).len() + k] == x);
            }
        }
    }
}

/// No points at all exactly when every series is empty.
pub proof fn lemma_flatten_empty(ss: Seq<Seq<DataPoint>>)
    ensures
        flatten(ss).len() == 0 <==> forall|i: int| 0 <= i < ss.len() ==> (#[trigger] ss[i]).len()
            == 0,
    decreases ss.len(),
{
    if ss.len() > 0 {
        let init = ss.drop_last();
        lemma_flatten_empty(init);
        assert(flatten(ss) == flatten(init) + ss.last());
        if forall|i: int| 0 <= i < ss.len() ==> (#[trigger] ss[i]).len() == 0 {
            assert forall|i: int| 0 <= i < init.len() implies (#[trigger] init[i]).len() == 0 by {
                assert(init[i] == ss[i]);
            }
            assert(ss.last() == ss[ss.len() - 1]);
        }
        if flatten(ss).len() == 0 {
            assert forall|i: int| 0 <= i < ss.len() implies (#[trigger] ss[i]).len() == 0 by {
                if i < ss.len() - 1 {
                    assert(init[i] == ss[i]);
                }
            }
        }
    }
}

/// The plot points of one series: one per data point, in the same order.
/// Fails when any timestamp is not RFC 3339.
pub fn build_plot_points(series: &Vec<DataPoint>) -> (r: Result<Vec<PlotPoint>, ChartError>)
    ensures
        match r {
            Ok(v) => {
                &&& all_parse(series@)
                &&& v.len() == series.len()
                &&& forall|k: int|
                    0 <= k < v.len() ==> (#[trigger] v[k]).time == time_of(series[k]) && v[k].count
                        == series[k].count
            },
            Err(e) => e == ChartError::MalformedTimestamp && !all_parse(series@),
        },
{
    let mut out: Vec<PlotPoint> = Vec::new();
    let mut k: usize = 0;
    while k < series.len()
        invariant
            k <= series.len(),
            out.len() == k,
            all_parse(series@.take(k as int)),
            forall|j: int|
                0 <= j < k ==> (#[trigger] out[j]).time == time_of(series[j]) && out[j].count
                    == series[j].count,
        decreases series.len() - k,
    {
        match parse_timestamp(series[k].timestamp.as_str()) {
            Ok(ms) => {
                out.push(PlotPoint { time: ms, count: series[k].count });
                assert forall|j: int| 0 <= j < k + 1 implies parses(
                    #[trigger] series@.take(k + 1)[j],
                ) by {
                    if j < k {
                        assert(series@.take(k as int)[j] == series@.take(k + 1)[j]);
                    }
                }
            },
            Err(e) => {
                assert(!parses(series@[k as int]));
                return Err(e);
            },
        }
        k = k + 1;
    }
    assert(series@.take(k as int) =~= series@);
    Ok(out)
}

/// All points of all series, series by series.
pub fn flatten_series(series: &Vec<Vec<DataPoint>>) -> (r: Vec<DataPoint>)
    ensures
        r@ == flatten(series_view(series@)),
{
    let ghost sv = series_view(series@);
    let mut out: Vec<DataPoint> = Vec::new();
    let mut i: usize = 0;
    while i < series.len()
        invariant
            i <= series.len(),
            sv == series_view(series@),
            out@ == flatten(sv.take(i as int)),
        decreases series.len() - i,
    {
        let s = &series[i];
        let mut j: usize = 0;
        while j < s.len()
            invariant
                i < series.len(),
                j <= s.len(),
                s@ == sv[i as int],
                out@ == flatten(sv.take(i as int)) + s@.take(j as int),
            decreases s.len() - j,
        {
            out.push(s[j].duplicate());
            assert(out@ =~= flatten(sv.take(i as int)) + s@.take(j + 1));
            j = j + 1;
        }
        proof {
            lemma_flatten_step(sv, i as int);
            assert(s@.take(j as int) =~= s@);
        }
        i = i + 1;
    }
    assert(sv.take(i as int) =~= sv);
    out
}

} // verus!
