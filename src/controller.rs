//! The render-pass controller: a state machine from data request to display.

use vstd::prelude::*;

use crate::annotate::{annotate, annotated, carries, lemma_annotation_round_trip, marker_slots};
use crate::bounds::{
    compute_bounds, lemma_max_count_is_greatest, lemma_max_time_is_greatest,
    lemma_min_time_is_least, max_count, max_time, min_time, padded_max,
    renderable_bounds, Padding,
};
use crate::model::{ChartError, DataPoint, PlotPoint};
use crate::render::{
    draw_series, plan_drawable, points_within, AXIS_LIMIT, plan_render, role_color, total_points, ChartLayout,
    NamedSeries, RenderPlan, SeriesRole,
};
use crate::series::{all_parse, build_plot_points, flatten, flatten_series, series_view, time_of};

verus! {

/// The three series fetched for one package.
#[derive(Clone, Debug)]
pub struct StatsSeries {
    pub overall: Vec<DataPoint>,
    pub source_a: Vec<DataPoint>,
    pub source_b: Vec<DataPoint>,
}

impl StatsSeries {
    /// The series in drawing order: aggregate, first source, second source.
    pub open spec fn in_order(&self) -> Seq<Seq<DataPoint>> {
        seq![self.overall@, self.source_a@, self.source_b@]
    }

    /// All points in drawing order.
    pub open spec fn points(&self) -> Seq<DataPoint> {
        flatten(self.in_order())
    }
}

/// Where one render pass stands.
#[derive(Clone, Copy, Debug, PartialEq, Eq, Structural)]
pub enum Phase {
    Idle,
    AwaitingData,
    Computing,
    Rendering,
    Annotating,
    Displayed,
    Failed(ChartError),
}

/// What the display surface shows. It is only ever replaced whole.
#[derive(Clone, Debug, PartialEq, Eq)]
pub enum Surface {
    Blank,
    /// The placeholder shown after a failed pass.
    Unavailable,
    /// The placeholder shown when there is no point to chart.
    EmptyState,
    Chart(String),
}

/// A plot series mirrors a data series point by point.
pub open spec fn mirrors(v: Seq<PlotPoint>, s: Seq<DataPoint>) -> bool {
    &&& v.len() == s.len()
    &&& forall|k: int|
        0 <= k < v.len() ==> (#[trigger] v[k]).time == time_of(s[k]) && v[k].count == s[k].count
}

/// A time range made non-empty: a single instant gets one more millisecond
/// (one less at the very end of the axis).
pub open spec fn widened(lo: int, hi: int) -> (int, int) {
    if lo < hi {
        (lo, hi)
    } else if hi < i64::MAX {
        (lo, hi + 1)
    } else {
        (lo - 1, hi)
    }
}

/// The points of a pass fit the drawing's axes: times from `-AXIS_LIMIT`
/// to `AXIS_LIMIT` (with the extra millisecond of a single instant) and a
/// padded top count of at most `AXIS_LIMIT`.
pub open spec fn pass_fits(pts: Seq<DataPoint>, pad: Padding) -> bool {
    &&& -AXIS_LIMIT <= min_time(pts)
    &&& widened(min_time(pts), max_time(pts)).1 <= AXIS_LIMIT
    &&& padded_max(max_count(pts), pad) <= AXIS_LIMIT
}

/// Drives one chart: a new snapshot restarts the pass, work for any other
/// snapshot is dropped, and the surface changes only when a pass ends.
pub struct ChartController {
    pub phase: Phase,
    pub snapshot: u64,
    pub attached: bool,
    pub surface: Surface,
    pub padding: Padding,
    pub layout: ChartLayout,
    pub data: Option<StatsSeries>,
    pub plan: Option<RenderPlan>,
    pub markup: Option<String>,
    pub points: Vec<DataPoint>,
}

impl ChartController {
    /// Each working phase holds what its step needs.
    pub open spec fn wf(&self) -> bool {
        &&& self.padding.wf()
        &&& self.layout.wf()
        &&& (self.phase == Phase::Computing <==> self.data is Some)
        &&& (self.phase == Phase::Rendering <==> self.plan is Some)
        &&& (self.phase == Phase::Annotating <==> self.markup is Some)
        &&& self.phase == Phase::Rendering ==> {
            let p = self.plan->0;
            &&& plan_drawable(&p)
            &&& p.layout == self.layout
            &&& total_points(p.series@) == self.points@.len()
        }
        &&& self.phase == Phase::Annotating ==> self.attached && marker_slots(
            self.markup->0@,
        ).len() == self.points@.len()
        &&& self.surface is Chart ==> self.attached
    }

    pub fn new(padding: Padding, layout: ChartLayout) -> (r: ChartController)
        requires
            padding.wf(),
            layout.wf(),
        ensures
            r.wf(),
            r.phase == Phase::Idle,
            r.surface == Surface::Blank,
            !r.attached,
            r.padding == padding,
    {
        ChartController {
            phase: Phase::Idle,
            snapshot: 0,
            attached: false,
            surface: Surface::Blank,
            padding,
            layout,
            data: None,
            plan: None,
            markup: None,
            points: Vec::new(),
        }
    }

    /// The display surface is part of the visible document from now on.
    pub fn attach(&mut self)
        requires
            old(self).wf(),
        ensures
            final(self).wf(),
            final(self).attached,
            final(self).phase == old(self).phase,
            final(self).surface == old(self).surface,
            final(self).snapshot == old(self).snapshot,
    {
        self.attached = true;
    }

    /// Starts a pass for a new data snapshot, superseding any pass in flight.
    pub fn request(&mut self, snapshot: u64)
        requires
            old(self).wf(),
        ensures
            final(self).wf(),
            final(self).phase == Phase::AwaitingData,
            final(self).snapshot == snapshot,
            final(self).surface == old(self).surface,
            final(self).attached == old(self).attached,
            final(self).padding == old(self).padding,
    {
        self.phase = Phase::AwaitingData;
        self.snapshot = snapshot;
        self.data = None;
        self.plan = None;
        self.markup = None;
        self.points = Vec::new();
    }

    /// Hands over the fetched series, or `None` when the fetch failed.
    /// Returns whether the data belongs to the pass awaiting it; data for
    /// any other snapshot changes nothing.
    pub fn receive(&mut self, snapshot: u64, data: Option<StatsSeries>) -> (accepted: bool)
        requires
            old(self).wf(),
        ensures
            final(self).wf(),
            accepted == (snapshot == old(self).snapshot && old(self).phase == Phase::AwaitingData),
            !accepted ==> *final(self) == *old(self),
            accepted ==> final(self).snapshot == old(self).snapshot && final(self).attached
                == old(self).attached && final(self).padding == old(self).padding,
            accepted && data is None ==> final(self).phase == Phase::Failed(
                ChartError::DataUnavailable,
            ) && final(self).surface == Surface::Unavailable,
            accepted && data is Some ==> final(self).phase == Phase::Computing && final(self).data
                == data && final(self).surface == old(self).surface,
    {
        if snapshot != self.snapshot || self.phase != Phase::AwaitingData {
            return false;
        }
        match data {
            None => {
                self.phase = Phase::Failed(ChartError::DataUnavailable);
                self.surface = Surface::Unavailable;
            },
            Some(d) => {
                self.phase = Phase::Computing;
                self.data = Some(d);
            },
        }
        true
    }

    fn fail(&mut self, e: ChartError)
        requires
            old(self).padding.wf(),
            old(self).layout.wf(),
        ensures
            final(self).wf(),
            final(self).phase == Phase::Failed(e),
            final(self).surface == Surface::Unavailable,
            final(self).snapshot == old(self).snapshot,
            final(self).attached == old(self).attached,
            final(self).padding == old(self).padding,
            final(self).layout == old(self).layout,
    {
        self.phase = Phase::Failed(e);
        self.surface = Surface::Unavailable;
        self.data = None;
        self.plan = None;
        self.markup = None;
        self.points = Vec::new();
    }

    /// The computing step: parses, bounds and plans the chart. No points at
    /// all is the empty state, shown as such; a malformed timestamp fails the
    /// pass before anything is drawn.
    pub fn compute(&mut self)
        requires
            old(self).wf(),
        ensures
            final(self).wf(),
            final(self).snapshot == old(self).snapshot,
            final(self).attached == old(self).attached,
            final(self).padding == old(self).padding,
            final(self).layout == old(self).layout,
            old(self).phase != Phase::Computing ==> *final(self) == *old(self),
            old(self).phase == Phase::Computing ==> ({
                let d = old(self).data->0;
                let pts = d.points();
                &&& pts.len() == 0 ==> final(self).phase == Phase::Displayed && final(self).surface
                    == Surface::EmptyState
                &&& pts.len() > 0 && !all_parse(pts) ==> final(self).phase == Phase::Failed(
                    ChartError::MalformedTimestamp,
                ) && final(self).surface == Surface::Unavailable
                &&& pts.len() > 0 && all_parse(pts) && pass_fits(pts, old(self).padding) ==> {
                    let p = final(self).plan->0;
                    &&& final(self).phase == Phase::Rendering
                    &&& final(self).surface == old(self).surface
                    &&& final(self).points@ == pts
                    &&& (p.x_min as int, p.x_max as int) == widened(min_time(pts), max_time(pts))
                    &&& p.y_min == 0
                    &&& p.y_max == if padded_max(max_count(pts), old(self).padding) > 0 {
                        padded_max(max_count(pts), old(self).padding)
                    } else {
                        1
                    }
                    &&& p.series.len() == 3
                    &&& p.series[0].role == SeriesRole::Overall
                    &&& p.series[1].role == SeriesRole::SourceA
                    &&& p.series[2].role == SeriesRole::SourceB
                    &&& forall|k: int|
                        0 <= k < 3 ==> (#[trigger] p.series[k]).color == role_color(
                            p.series[k].role,
                        )
                    &&& p.layout == old(self).layout
                    &&& forall|k: int|
                        0 <= k < 3 ==> mirrors((#[trigger] p.series[k]).points@, d.in_order()[k])
                }
                &&& pts.len() > 0 && all_parse(pts) && !pass_fits(pts, old(self).padding)
                    ==> final(self).phase == Phase::Failed(ChartError::RenderError)
                    && final(self).surface == Surface::Unavailable
            }),
    {
        if self.phase != Phase::Computing {
            return;
        }
        let d = match self.data.take() {
            Some(d) => d,
            None => {
                return;
            },
        };
        let ghost pts = d.points();
        let mut all: Vec<Vec<DataPoint>> = Vec::new();
        all.push(d.overall);
        all.push(d.source_a);
        all.push(d.source_b);
        assert(series_view(all@) =~= d.in_order());
        let bounds = match compute_bounds(&all, self.padding) {
            Ok(b) => b,
            Err(e) => {
                if e == ChartError::EmptySeries {
                    self.phase = Phase::Displayed;
                    self.surface = Surface::EmptyState;
                } else {
                    self.fail(e);
                }
                return;
            },
        };
        let overall = build_plot_points(&all[0]);
        let source_a = build_plot_points(&all[1]);
        let source_b = build_plot_points(&all[2]);
        let (o, a, b) = match (overall, source_a, source_b) {
            (Ok(o), Ok(a), Ok(b)) => (o, a, b),
            _ => {
                proof {
                    lemma_in_order_parse(d);
                }
                self.fail(ChartError::MalformedTimestamp);
                return;
            },
        };
        let points = flatten_series(&all);
        let mut traces: Vec<NamedSeries> = Vec::new();
        traces.push(NamedSeries::new(SeriesRole::Overall, o));
        traces.push(NamedSeries::new(SeriesRole::SourceA, a));
        traces.push(NamedSeries::new(SeriesRole::SourceB, b));
        proof {
            lemma_nonempty_trace(d, traces@);
            if d.points().len() > 0 {
                lemma_counts_within(d, self.padding);
                lemma_total_points(d, traces@);
            }
        }
        let wide = renderable_bounds(bounds);
        proof {
            if d.points().len() > 0 && pass_fits(d.points(), self.padding) {
                let pts = d.points();
                assert(wide.x_min == min_time(pts));
                assert forall|k: int, j: int|
                    0 <= k < 3 && 0 <= j < traces@[k].points.len() implies {
                    let p = #[trigger] traces@[k].points[j];
                    &&& wide.x_min <= p.time <= wide.x_max
                    &&& wide.y_min <= p.count <= wide.y_max
                } by {
                    assert(d.in_order()[k] == all@[k]@);
                    assert(d.in_order()[k][j].count <= padded_max(max_count(pts), self.padding));
                    assert(min_time(pts) <= time_of(d.in_order()[k][j]) <= max_time(pts));
                }
            }
        }
        match plan_render(wide, traces, self.layout.duplicate()) {
            Ok(Some(plan)) => {
                self.phase = Phase::Rendering;
                self.plan = Some(plan);
                self.points = points;
            },
            _ => {
                self.fail(ChartError::RenderError);
            },
        }
    }

    /// The rendering step, once the display surface is attached: draws the
    /// plan, one point marker per point of the pass.
    pub fn render(&mut self)
        requires
            old(self).wf(),
        ensures
            final(self).wf(),
            final(self).snapshot == old(self).snapshot,
            final(self).attached == old(self).attached,
            final(self).padding == old(self).padding,
            !(old(self).phase == Phase::Rendering && old(self).attached) ==> *final(self) == *old(
                self,
            ),
            old(self).phase == Phase::Rendering && old(self).attached ==> {
                &&& final(self).phase == Phase::Annotating
                &&& final(self).points == old(self).points
                &&& final(self).surface == old(self).surface
                &&& marker_slots(final(self).markup->0@).len() == old(self).points@.len()
            },
    {
        if self.phase != Phase::Rendering || !self.attached {
            return;
        }
        let plan = match self.plan.take() {
            Some(p) => p,
            None => {
                return;
            },
        };
        match draw_series(&plan) {
            Ok(m) => {
                self.phase = Phase::Annotating;
                self.markup = Some(m);
            },
            Err(e) => {
                self.fail(e);
            },
        }
    }

    /// The annotating step: attaches each point to its marker and shows the
    /// result, or fails the pass without showing any of it.
    pub fn finish(&mut self)
        requires
            old(self).wf(),
        ensures
            final(self).wf(),
            final(self).snapshot == old(self).snapshot,
            final(self).attached == old(self).attached,
            final(self).padding == old(self).padding,
            old(self).phase != Phase::Annotating ==> *final(self) == *old(self),
            old(self).phase == Phase::Annotating ==> ({
                let m = old(self).markup->0;
                let pts = old(self).points@;
                let out = final(self).surface->Chart_0@;
                &&& final(self).phase == Phase::Displayed
                &&& final(self).surface is Chart
                &&& annotated(m@, pts) == Some(out)
                &&& marker_slots(out).len() == pts.len()
                &&& forall|q: int|
                    0 <= q < pts.len() ==> carries(out, #[trigger] marker_slots(out)[q], pts[q])
            }),
    {
        if self.phase != Phase::Annotating {
            return;
        }
        let m = match self.markup.take() {
            Some(m) => m,
            None => {
                return;
            },
        };
        proof {
            lemma_annotation_round_trip(m@, self.points@);
        }
        match annotate(m.as_str(), &self.points) {
            Ok(out) => {
                self.phase = Phase::Displayed;
                self.surface = Surface::Chart(out);
            },
            Err(e) => {
                self.fail(e);
            },
        }
    }
}

/// The points of a pass are the three series one after another.
pub proof fn lemma_points_concat(d: StatsSeries)
    ensures
        d.points() == d.overall@ + d.source_a@ + d.source_b@,
{
    let s = d.in_order();
    let s2 = s.drop_last();
    let s1 = s2.drop_last();
    let s0 = s1.drop_last();
    assert(s0 =~= Seq::<Seq<DataPoint>>::empty());
    assert(s1 =~= seq![d.overall@]);
    assert(s2 =~= seq![d.overall@, d.source_a@]);
    assert(flatten(s0) == Seq::<DataPoint>::empty());
    assert(flatten(s1) == flatten(s0) + d.overall@);
    assert(flatten(s2) == flatten(s1) + d.source_a@);
    assert(flatten(s) == flatten(s2) + d.source_b@);
    assert(flatten(s1) =~= d.overall@);
}

proof fn lemma_in_order_parse(d: StatsSeries)
    ensures
        all_parse(d.points()) ==> all_parse(d.overall@) && all_parse(d.source_a@) && all_parse(
            d.source_b@,
        ),
{
    lemma_points_concat(d);
    let f = d.points();
    if all_parse(f) {
        assert forall|k: int| 0 <= k < d.overall@.len() implies crate::series::parses(
            #[trigger] d.overall@[k],
        ) by {
            assert(f[k] == d.overall@[k]);
        }
        assert forall|k: int| 0 <= k < d.source_a@.len() implies crate::series::parses(
            #[trigger] d.source_a@[k],
        ) by {
            assert(f[d.overall@.len() + k] == d.source_a@[k]);
        }
        assert forall|k: int| 0 <= k < d.source_b@.len() implies crate::series::parses(
            #[trigger] d.source_b@[k],
        ) by {
            assert(f[d.overall@.len() + d.source_a@.len() + k] == d.source_b@[k]);
        }
    }
}

proof fn lemma_nonempty_trace(d: StatsSeries, traces: Seq<NamedSeries>)
    requires
        traces.len() == 3,
        traces[0].points.len() == d.overall@.len(),
        traces[1].points.len() == d.source_a@.len(),
        traces[2].points.len() == d.source_b@.len(),
    ensures
        d.points().len() > 0 ==> crate::render::has_points(traces),
{
    lemma_points_concat(d);
    if d.points().len() > 0 {
        if d.overall@.len() > 0 {
            assert(traces[0].points.len() > 0);
        } else if d.source_a@.len() > 0 {
            assert(traces[1].points.len() > 0);
        } else {
            assert(traces[2].points.len() > 0);
        }
    }
}

/// Every count of a pass is at most the padded top of its bounds.
proof fn lemma_counts_within(d: StatsSeries, pad: Padding)
    requires
        pad.wf(),
        d.points().len() > 0,
    ensures
        forall|k: int, j: int|
            0 <= k < 3 && 0 <= j < d.in_order()[k].len() ==> (#[trigger] d.in_order()[k][j]).count
                <= padded_max(max_count(d.points()), pad) && min_time(d.points()) <= time_of(
                d.in_order()[k][j],
            ) <= max_time(d.points()),
{
    let pts = d.points();
    lemma_points_concat(d);
    lemma_max_count_is_greatest(pts);
    lemma_min_time_is_least(pts);
    lemma_max_time_is_greatest(pts);
    let m = max_count(pts);
    let den = pad.den as int;
    let num = pad.num as int;
    assert(m >= 0) by {
        assert(pts[0].count >= 0);
    }
    assert(m * den <= m * (den + num) + den - 1) by (nonlinear_arith)
        requires
            m >= 0,
            den >= 1,
            num >= 0,
    ;
    vstd::arithmetic::div_mod::lemma_div_is_ordered(m * den, m * (den + num) + den - 1, den);
    vstd::arithmetic::div_mod::lemma_div_multiples_vanish(m, den);
    assert(m * den == den * m) by (nonlinear_arith);
    let la = d.overall@.len() as int;
    let lb = d.source_a@.len() as int;
    assert forall|k: int, j: int|
        0 <= k < 3 && 0 <= j < d.in_order()[k].len() implies (#[trigger] d.in_order()[k][j]).count
            <= padded_max(m, pad) && min_time(pts) <= time_of(d.in_order()[k][j]) <= max_time(pts) by {
        if k == 0 {
            assert(pts[j] == d.overall@[j]);
        } else if k == 1 {
            assert(pts[la + j] == d.source_a@[j]);
        } else {
            assert(pts[la + lb + j] == d.source_b@[j]);
        }
    }
}

/// The traces of a pass hold as many points as the pass.
proof fn lemma_total_points(d: StatsSeries, traces: Seq<NamedSeries>)
    requires
        traces.len() == 3,
        traces[0].points.len() == d.overall@.len(),
        traces[1].points.len() == d.source_a@.len(),
        traces[2].points.len() == d.source_b@.len(),
    ensures
        total_points(traces) == d.points().len(),
{
    lemma_points_concat(d);
    let t2 = traces.drop_last();
    let t1 = t2.drop_last();
    let t0 = t1.drop_last();
    assert(t0.len() == 0);
    assert(total_points(t1) == total_points(t0) + traces[0].points.len());
    assert(total_points(t2) == total_points(t1) + traces[1].points.len());
    assert(total_points(traces) == total_points(t2) + traces[2].points.len());
}

} // verus!
