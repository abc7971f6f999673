//! Axis bounds of a chart: the time range of all points and a padded count range.

use vstd::prelude::*;

use crate::model::{ChartError, DataPoint};
use crate::series::{
    all_parse, build_plot_points, flatten, lemma_flatten_contains, lemma_flatten_empty,
    lemma_flatten_step, parses, series_view, time_of,
};

verus! {

/// Head-room above the largest count, as the fraction `num / den`.
#[derive(Clone, Copy, Debug, PartialEq, Eq, Structural)]
pub struct Padding {
    pub num: u32,
    pub den: u32,
}

impl Padding {
    pub open spec fn wf(&self) -> bool {
        self.den > 0
    }

    /// The usual head-room: three tenths.
    pub fn standard() -> (r: Padding)
        ensures
            r.wf(),
            r.num == 3,
            r.den == 10,
    {
        Padding { num: 3, den: 10 }
    }
}

/// The region a chart is scaled to: time on x, count on y.
#[derive(Clone, Copy, Debug, PartialEq, Eq, Structural)]
pub struct AxisBounds {
    pub x_min: i64,
    pub x_max: i64,
    pub y_min: u128,
    pub y_max: u128,
}

pub open spec fn min_time(pts: Seq<DataPoint>) -> int
    decreases pts.len(),
{
    if pts.len() <= 1 {
        time_of(pts[0])
    } else {
        let m = min_time(pts.drop_last());
        let t = time_of(pts.last());
        if t < m {
            t
        } else {
            m
        }
    }
}

pub open spec fn max_time(pts: Seq<DataPoint>) -> int
    decreases pts.len(),
{
    if pts.len() <= 1 {
        time_of(pts[0])
    } else {
        let m = max_time(pts.drop_last());
        let t = time_of(pts.last());
        if t > m {
            t
        } else {
            m
        }
    }
}

pub open spec fn max_count(pts: Seq<DataPoint>) -> int
    decreases pts.len(),
{
    if pts.len() <= 1 {
        pts[0].count as int
    } else {
        let m = max_count(pts.drop_last());
        let c = pts.last().count as int;
        if c > m {
            c
        } else {
            m
        }
    }
}

/// `ceil(m * (1 + num / den))`.
pub open spec fn padded_max(m: int, pad: Padding) -> int {
    (m * (pad.den + pad.num) + pad.den - 1) / pad.den as int
}

/// The least time is at most every point's time and is some point's time.
pub proof fn lemma_min_time_is_least(pts: Seq<DataPoint>)
    requires
        pts.len() > 0,
    ensures
        forall|k: int| 0 <= k < pts.len() ==> min_time(pts) <= time_of(#[trigger] pts[k]),
        exists|k: int| 0 <= k < pts.len() && min_time(pts) == time_of(#[trigger] pts[k]),
    decreases pts.len(),
{
    if pts.len() > 1 {
        let init = pts.drop_last();
        lemma_min_time_is_least(init);
        assert forall|k: int| 0 <= k < pts.len() implies min_time(pts) <= time_of(
            #[trigger] pts[k],
        ) by {
            if k < init.len() {
                assert(init[k] == pts[k]);
            }
        }
        let j = choose|j: int| 0 <= j < init.len() && min_time(init) == time_of(#[trigger] init[j]);
        assert(init[j] == pts[j]);
        if min_time(pts) == time_of(pts.last()) {
            assert(pts.last() == pts[pts.len() - 1]);
        }
    } else {
        assert(min_time(pts) == time_of(pts[0]));
    }
}

/// The greatest time is at least every point's time and is some point's time.
pub proof fn lemma_max_time_is_greatest(pts: Seq<DataPoint>)
    requires
        pts.len() > 0,
    ensures
        forall|k: int| 0 <= k < pts.len() ==> max_time(pts) >= time_of(#[trigger] pts[k]),
        exists|k: int| 0 <= k < pts.len() && max_time(pts) == time_of(#[trigger] pts[k]),
    decreases pts.len(),
{
    if pts.len() > 1 {
        let init = pts.drop_last();
        lemma_max_time_is_greatest(init);
        assert forall|k: int| 0 <= k < pts.len() implies max_time(pts) >= time_of(
            #[trigger] pts[k],
        ) by {
            if k < init.len() {
                assert(init[k] == pts[k]);
            }
        }
        let j = choose|j: int| 0 <= j < init.len() && max_time(init) == time_of(#[trigger] init[j]);
        assert(init[j] == pts[j]);
        if max_time(pts) == time_of(pts.last()) {
            assert(pts.last() == pts[pts.len() - 1]);
        }
    } else {
        assert(max_time(pts) == time_of(pts[0]));
    }
}

/// The greatest count is at least every point's count and is some point's count.
pub proof fn lemma_max_count_is_greatest(pts: Seq<DataPoint>)
    requires
        pts.len() > 0,
    ensures
        forall|k: int| 0 <= k < pts.len() ==> max_count(pts) >= (#[trigger] pts[k]).count,
        exists|k: int| 0 <= k < pts.len() && max_count(pts) == (#[trigger] pts[k]).count,
    decreases pts.len(),
{
    if pts.len() > 1 {
        let init = pts.drop_last();
        lemma_max_count_is_greatest(init);
        assert forall|k: int| 0 <= k < pts.len() implies max_count(pts) >= (
        #[trigger] pts[k]).count by {
            if k < init.len() {
                assert(init[k] == pts[k]);
            }
        }
        let j = choose|j: int| 0 <= j < init.len() && max_count(init) == (#[trigger] init[j]).count;
        assert(init[j] == pts[j]);
        if max_count(pts) == pts.last().count {
            assert(pts.last() == pts[pts.len() - 1]);
        }
    } else {
        assert(max_count(pts) == pts[0].count);
    }
}

proof fn lemma_bounds_empty_iff(series: Seq<Vec<DataPoint>>)
    ensures
        flatten(series_view(series)).len() == 0 <==> forall|i: int|
            0 <= i < series.len() ==> (#[trigger] series[i]).len() == 0,
{
    let sv = series_view(series);
    lemma_flatten_empty(sv);
    assert forall|i: int| 0 <= i < series.len() implies (#[trigger] sv[i]) == series[i]@ by {}
    if flatten(sv).len() == 0 {
        assert forall|i: int| 0 <= i < series.len() implies (#[trigger] series[i]).len() == 0 by {
            assert(sv[i].len() == 0);
        }
    }
    if forall|i: int| 0 <= i < series.len() ==> (#[trigger] series[i]).len() == 0 {
        assert forall|i: int| 0 <= i < sv.len() implies (#[trigger] sv[i]).len() == 0 by {
            assert(series[i].len() == 0);
        }
    }
}

/// Bounds of all points of all series: x from the least to the greatest
/// time, y from zero to the padded greatest count. Fails with `EmptySeries`
/// when every series is empty and with `MalformedTimestamp` when any
/// timestamp is not RFC 3339.
pub fn compute_bounds(series: &Vec<Vec<DataPoint>>, padding: Padding) -> (r: Result<
    AxisBounds,
    ChartError,
>)
    requires
        padding.wf(),
    ensures
        ({
            let pts = flatten(series_view(series@));
            match r {
                Ok(b) => {
                    &&& pts.len() > 0
                    &&& all_parse(pts)
                    &&& b.x_min == min_time(pts)
                    &&& b.x_max == max_time(pts)
                    &&& b.y_min == 0
                    &&& b.y_max == padded_max(max_count(pts), padding)
                },
                Err(e) => {
                    ||| e == ChartError::EmptySeries && pts.len() == 0
                    ||| e == ChartError::MalformedTimestamp && pts.len() > 0 && !all_parse(pts)
                },
            }
        }),
        (r == Err::<AxisBounds, ChartError>(ChartError::EmptySeries)) <==> forall|i: int|
            0 <= i < series.len() ==> (#[trigger] series[i]).len() == 0,
{
    let ghost sv = series_view(series@);
    let mut seen = false;
    let mut x_min: i64 = 0;
    let mut x_max: i64 = 0;
    let mut top: u64 = 0;
    let mut i: usize = 0;
    while i < series.len()
        invariant
            i <= series.len(),
            sv == series_view(series@),
            seen == (flatten(sv.take(i as int)).len() > 0),
            all_parse(flatten(sv.take(i as int))),
            seen ==> x_min == min_time(flatten(sv.take(i as int))),
            seen ==> x_max == max_time(flatten(sv.take(i as int))),
            seen ==> top == max_count(flatten(sv.take(i as int))),
        decreases series.len() - i,
    {
        let ghost acc = flatten(sv.take(i as int));
        assert(sv[i as int] == series@[i as int]@);
        let pts = match build_plot_points(&series[i]) {
            Ok(v) => v,
            Err(e) => {
                proof {
                    let k = choose|k: int|
                        0 <= k < sv[i as int].len() && !parses(#[trigger] sv[i as int][k]);
                    lemma_flatten_contains(sv, sv[i as int][k]);
                    let all = flatten(sv);
                    assert(sv[i as int].contains(sv[i as int][k]));
                    let idx = choose|idx: int| 0 <= idx < all.len() && all[idx] == sv[i as int][k];
                    assert(!parses(all[idx]));
                    lemma_bounds_empty_iff(series@);
                }
                return Err(e);
            },
        };
        let mut j: usize = 0;
        while j < pts.len()
            invariant
                i < series.len(),
                j <= pts.len(),
                pts.len() == sv[i as int].len(),
                forall|k: int|
                    0 <= k < pts.len() ==> (#[trigger] pts[k]).time == time_of(sv[i as int][k])
                        && pts[k].count == sv[i as int][k].count,
                all_parse(sv[i as int]),
                all_parse(acc),
                seen == ((acc + sv[i as int].take(j as int)).len() > 0),
                seen ==> x_min == min_time(acc + sv[i as int].take(j as int)),
                seen ==> x_max == max_time(acc + sv[i as int].take(j as int)),
                seen ==> top == max_count(acc + sv[i as int].take(j as int)),
            decreases pts.len() - j,
        {
            let p = pts[j];
            let ghost cur = acc + sv[i as int].take(j as int);
            let ghost nxt = acc + sv[i as int].take(j + 1);
            assert(nxt.drop_last() =~= cur);
            assert(nxt.last() == sv[i as int][j as int]);
            if !seen || p.time < x_min {
                x_min = p.time;
            }
            if !seen || p.time > x_max {
                x_max = p.time;
            }
            if !seen || p.count > top {
                top = p.count;
            }
            seen = true;
            j = j + 1;
        }
        proof {
            assert(sv[i as int].take(j as int) =~= sv[i as int]);
            lemma_flatten_step(sv, i as int);
            let nxt = flatten(sv.take(i + 1));
            assert forall|k: int| 0 <= k < nxt.len() implies parses(#[trigger] nxt[k]) by {
                if k >= acc.len() {
                    assert(nxt[k] == sv[i as int][k - acc.len()]);
                } else {
                    assert(nxt[k] == acc[k]);
                }
            }
        }
        i = i + 1;
    }
    assert(sv.take(i as int) =~= sv);
    proof {
        lemma_bounds_empty_iff(series@);
    }
    if !seen {
        return Err(ChartError::EmptySeries);
    }
    let den = padding.den as u128;
    let num = padding.num as u128;
    let t = top as u128;
    assert(t * (den + num) + den - 1 <= 0xffff_ffff_ffff_ffff * 0x1_ffff_fffe + 0xffff_ffff) by (
    nonlinear_arith)
        requires
            t <= 0xffff_ffff_ffff_ffff,
            den <= 0xffff_ffff,
            num <= 0xffff_ffff,
            den >= 1,
    ;
    let y_max = (t * (den + num) + den - 1) / den;
    Ok(AxisBounds { x_min, x_max, y_min: 0, y_max })
}

/// Bounds widened to a non-empty range on both axes, as a renderer needs:
/// a single instant gets one more millisecond, a zero top becomes one.
pub fn renderable_bounds(b: AxisBounds) -> (r: AxisBounds)
    requires
        b.x_min <= b.x_max,
        b.y_min <= b.y_max,
    ensures
        r.x_min < r.x_max,
        r.y_min < r.y_max,
        b.x_min < b.x_max ==> r.x_min == b.x_min && r.x_max == b.x_max,
        b.x_min == b.x_max && b.x_max < i64::MAX ==> r.x_min == b.x_min && r.x_max == b.x_max + 1,
        b.x_min == b.x_max == i64::MAX ==> r.x_min == b.x_min - 1 && r.x_max == b.x_max,
        b.y_min < b.y_max ==> r.y_min == b.y_min && r.y_max == b.y_max,
        b.y_min == b.y_max && b.y_max < u128::MAX ==> r.y_min == b.y_min && r.y_max == b.y_max
            + 1,
        b.y_min == b.y_max == u128::MAX ==> r.y_min == b.y_min - 1 && r.y_max == b.y_max,
{
    let mut r = b;
    if b.x_min == b.x_max {
        if b.x_max < i64::MAX {
            r.x_max = b.x_max + 1;
        } else {
            r.x_min = b.x_min - 1;
        }
    }
    if b.y_min == b.y_max {
        if b.y_max < u128::MAX {
            r.y_max = b.y_max + 1;
        } else {
            r.y_min = b.y_min - 1;
        }
    }
    r
}

/// Series whose points are rearranged within each series hold the same
/// points once flattened.
proof fn lemma_rearranged_same_points(a: Seq<Seq<DataPoint>>, b: Seq<Seq<DataPoint>>, x: DataPoint)
    requires
        a.len() == b.len(),
        forall|i: int| 0 <= i < a.len() ==> (#[trigger] a[i]).to_multiset() == b[i].to_multiset(),
    ensures
        flatten(a).contains(x) <==> flatten(b).contains(x),
{
    broadcast use vstd::seq_lib::to_multiset_contains;

    lemma_flatten_contains(a, x);
    lemma_flatten_contains(b, x);
    if exists|i: int| 0 <= i < a.len() && #[trigger] a[i].contains(x) {
        let i = choose|i: int| 0 <= i < a.len() && #[trigger] a[i].contains(x);
        assert(a[i].to_multiset().count(x) > 0);
        assert(b[i].contains(x));
    }
    if exists|i: int| 0 <= i < b.len() && #[trigger] b[i].contains(x) {
        let i = choose|i: int| 0 <= i < b.len() && #[trigger] b[i].contains(x);
        assert(b[i].to_multiset().count(x) > 0);
        assert(a[i].contains(x));
    }
}

/// Bounds do not depend on the order of points within a series: when each
/// series of `b` rearranges the same series of `a`, both have points or
/// neither, all timestamps parse in both or in neither, and the least time,
/// greatest time and greatest count agree, so `compute_bounds` gives the same
/// result on both.
pub proof fn lemma_bounds_order_independent(a: Seq<Seq<DataPoint>>, b: Seq<Seq<DataPoint>>)
    requires
        a.len() == b.len(),
        forall|i: int| 0 <= i < a.len() ==> (#[trigger] a[i]).to_multiset() == b[i].to_multiset(),
    ensures
        (flatten(a).len() > 0) == (flatten(b).len() > 0),
        all_parse(flatten(a)) == all_parse(flatten(b)),
        flatten(a).len() > 0 && all_parse(flatten(a)) ==> {
            &&& min_time(flatten(a)) == min_time(flatten(b))
            &&& max_time(flatten(a)) == max_time(flatten(b))
            &&& max_count(flatten(a)) == max_count(flatten(b))
        },
{
    let fa = flatten(a);
    let fb = flatten(b);
    assert forall|x: DataPoint| fa.contains(x) <==> fb.contains(x) by {
        lemma_rearranged_same_points(a, b, x);
    }
    if fa.len() > 0 {
        assert(fb.contains(fa[0]));
    }
    if fb.len() > 0 {
        assert(fa.contains(fb[0]));
    }
    if !all_parse(fa) {
        let k = choose|k: int| 0 <= k < fa.len() && !parses(#[trigger] fa[k]);
        assert(fb.contains(fa[k]));
    }
    if !all_parse(fb) {
        let k = choose|k: int| 0 <= k < fb.len() && !parses(#[trigger] fb[k]);
        assert(fa.contains(fb[k]));
    }
    if fa.len() > 0 && all_parse(fa) {
        lemma_min_time_is_least(fa);
        lemma_min_time_is_least(fb);
        lemma_max_time_is_greatest(fa);
        lemma_max_time_is_greatest(fb);
        lemma_max_count_is_greatest(fa);
        lemma_max_count_is_greatest(fb);
        let ka = choose|k: int| 0 <= k < fa.len() && min_time(fa) == time_of(#[trigger] fa[k]);
        let kb = choose|k: int| 0 <= k < fb.len() && min_time(fb) == time_of(#[trigger] fb[k]);
        assert(fb.contains(fa[ka]));
        assert(fa.contains(fb[kb]));
        let ma = choose|k: int| 0 <= k < fa.len() && max_time(fa) == time_of(#[trigger] fa[k]);
        let mb = choose|k: int| 0 <= k < fb.len() && max_time(fb) == time_of(#[trigger] fb[k]);
        assert(fb.contains(fa[ma]));
        assert(fa.contains(fb[mb]));
        let ca = choose|k: int| 0 <= k < fa.len() && max_count(fa) == (#[trigger] fa[k]).count;
        let cb = choose|k: int| 0 <= k < fb.len() && max_count(fb) == (#[trigger] fb[k]).count;
        assert(fb.contains(fa[ca]));
        assert(fa.contains(fb[cb]));
    }
}

} // verus!
