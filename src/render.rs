//! Render planning: trace colors, chart frame and the ranges a backend draws on.

use vstd::prelude::*;

use crate::annotate::marker_slots;
use crate::bounds::AxisBounds;
use crate::model::{ChartError, PlotPoint};
use plotters::prelude::{ChartBuilder, IntoDrawingArea, LineSeries, RGBColor, SVGBackend};

verus! {

/// What a series stands for; each role has its own color.
#[derive(Clone, Copy, Debug, PartialEq, Eq, Structural)]
pub enum SeriesRole {
    Overall,
    SourceA,
    SourceB,
}

#[derive(Clone, Copy, Debug, PartialEq, Eq, Structural)]
pub struct Rgb {
    pub r: u8,
    pub g: u8,
    pub b: u8,
}

/// A blue for the aggregate, a green for the first source, an orange for the
/// second, each in its 600 shade.
pub open spec fn role_color(role: SeriesRole) -> Rgb {
    match role {
        SeriesRole::Overall => Rgb { r: 30, g: 136, b: 229 },
        SeriesRole::SourceA => Rgb { r: 67, g: 160, b: 71 },
        SeriesRole::SourceB => Rgb { r: 251, g: 140, b: 0 },
    }
}

pub fn color_of(role: SeriesRole) -> (r: Rgb)
    ensures
        r == role_color(role),
{
    match role {
        SeriesRole::Overall => Rgb { r: 30, g: 136, b: 229 },
        SeriesRole::SourceA => Rgb { r: 67, g: 160, b: 71 },
        SeriesRole::SourceB => Rgb { r: 251, g: 140, b: 0 },
    }
}

/// One trace of the chart.
#[derive(Clone, Debug)]
pub struct NamedSeries {
    pub role: SeriesRole,
    pub color: Rgb,
    pub points: Vec<PlotPoint>,
}

impl NamedSeries {
    pub fn new(role: SeriesRole, points: Vec<PlotPoint>) -> (r: NamedSeries)
        ensures
            r.role == role,
            r.color == role_color(role),
            r.points == points,
    {
        NamedSeries { role, color: color_of(role), points }
    }
}

/// The fixed frame of a chart: canvas, margins, label counts, marker size.
#[derive(Clone, Debug)]
pub struct ChartLayout {
    pub caption: String,
    pub caption_size: u32,
    pub width: u32,
    pub height: u32,
    pub margin: u32,
    pub label_area: u32,
    pub x_labels: u32,
    pub y_labels: u32,
    pub point_size: u32,
}

/// Greatest magnitude of an axis end: ranges up to this size are ones the
/// drawing computes its ticks for without overflow.
pub const AXIS_LIMIT: i64 = 100_000_000_000_000_000;

impl ChartLayout {
    /// A frame the drawing can lay out: one to fifty labels per axis,
    /// markers and caption of sizes one to a hundred, a caption of at most
    /// two hundred characters, and a canvas that holds the margins, label
    /// area and caption with a hundred pixels to spare.
    pub open spec fn wf(&self) -> bool {
        &&& 1 <= self.x_labels <= 50
        &&& 1 <= self.y_labels <= 50
        &&& 1 <= self.point_size <= 100
        &&& 1 <= self.caption_size <= 100
        &&& self.caption@.len() <= 200
        &&& self.margin <= 1000
        &&& self.label_area <= 1000
        &&& self.width <= 10000
        &&& self.height <= 10000
        &&& 2 * self.margin + self.label_area + 100 <= self.width
        &&& 2 * self.margin + self.label_area + 2 * self.caption_size + 100 <= self.height
    }

    pub fn is_wf(&self) -> (r: bool)
        ensures
            r == self.wf(),
    {
        let m = self.margin as u64;
        let a = self.label_area as u64;
        let c = self.caption_size as u64;
        1 <= self.x_labels && self.x_labels <= 50 && 1 <= self.y_labels && self.y_labels <= 50
            && 1 <= self.point_size && self.point_size <= 100 && 1 <= self.caption_size
            && self.caption_size <= 100 && self.caption.as_str().unicode_len() <= 200 && m <= 1000
            && a <= 1000 && self.width <= 10000 && self.height <= 10000 && 2 * m + a + 100
            <= self.width as u64 && 2 * m + a + 2 * c + 100 <= self.height as u64
    }

    /// An 800 by 600 canvas with five date labels, eight count labels and
    /// markers of radius two.
    pub fn standard() -> (r: ChartLayout)
        ensures
            r.width == 800 && r.height == 600,
            r.margin == 64 && r.label_area == 30,
            r.x_labels == 5 && r.y_labels == 8,
            r.point_size == 2 && r.caption_size == 20,
            r.caption@ == "Downloads Over Time"@,
            r.wf(),
    {
        proof {
            reveal_strlit("Downloads Over Time");
        }
        ChartLayout {
            caption: String::from_str("Downloads Over Time"),
            caption_size: 20,
            width: 800,
            height: 600,
            margin: 64,
            label_area: 30,
            x_labels: 5,
            y_labels: 8,
            point_size: 2,
        }
    }
}

impl ChartLayout {
    /// A field-by-field copy that verified code can reason about.
    pub fn duplicate(&self) -> (r: ChartLayout)
        ensures
            r == *self,
    {
        ChartLayout {
            caption: self.caption.clone(),
            caption_size: self.caption_size,
            width: self.width,
            height: self.height,
            margin: self.margin,
            label_area: self.label_area,
            x_labels: self.x_labels,
            y_labels: self.y_labels,
            point_size: self.point_size,
        }
    }
}

/// Everything a drawing backend needs for one chart: the coordinate ranges,
/// the frame and the traces in drawing order.
#[derive(Clone, Debug)]
pub struct RenderPlan {
    pub x_min: i64,
    pub x_max: i64,
    pub y_min: i64,
    pub y_max: i64,
    pub layout: ChartLayout,
    pub series: Vec<NamedSeries>,
}

/// Some trace has a point.
pub open spec fn has_points(series: Seq<NamedSeries>) -> bool {
    exists|i: int| 0 <= i < series.len() && (#[trigger] series[i]).points.len() > 0
}

/// Every point lies within the ranges.
pub open spec fn points_within(
    series: Seq<NamedSeries>,
    x_min: int,
    x_max: int,
    y_min: int,
    y_max: int,
) -> bool {
    forall|i: int, j: int|
        0 <= i < series.len() && 0 <= j < series[i].points.len() ==> {
            let p = #[trigger] series[i].points[j];
            &&& x_min <= p.time <= x_max
            &&& y_min <= p.count <= y_max
        }
}

/// Bounds that a chart can be built on: a non-empty range on both axes,
/// neither end beyond `AXIS_LIMIT`.
pub open spec fn drawable(b: AxisBounds) -> bool {
    -AXIS_LIMIT <= b.x_min < b.x_max <= AXIS_LIMIT && b.y_min < b.y_max <= AXIS_LIMIT
}

fn points_within_exec(series: &Vec<NamedSeries>, x_min: i64, x_max: i64, y_min: i64, y_max: i64) -> (r: bool)
    requires
        y_min <= y_max,
    ensures
        r == points_within(series@, x_min as int, x_max as int, y_min as int, y_max as int),
{
    let mut i: usize = 0;
    while i < series.len()
        invariant
            i <= series.len(),
            y_min <= y_max,
            points_within(series@.take(i as int), x_min as int, x_max as int, y_min as int, y_max as int),
        decreases series.len() - i,
    {
        let pts = &series[i].points;
        let mut j: usize = 0;
        while j < pts.len()
            invariant
                i < series.len(),
                pts@ == series@[i as int].points@,
                j <= pts.len(),
                y_min <= y_max,
                points_within(series@.take(i as int), x_min as int, x_max as int, y_min as int, y_max as int),
                forall|q: int| 0 <= q < j ==> {
                    let p = #[trigger] pts@[q];
                    &&& x_min <= p.time <= x_max
                    &&& y_min <= p.count <= y_max
                },
            decreases pts.len() - j,
        {
            let p = pts[j];
            if p.time < x_min || p.time > x_max || (y_min > 0 && p.count < y_min as u64) || (y_max < 0 || p.count > y_max as u64) {
                proof {
                    assert(series@[i as int].points[j as int] == p);
                }
                return false;
            }
            j = j + 1;
        }
        proof {
            let nxt = series@.take(i + 1);
            assert forall|a: int, b: int| 0 <= a < nxt.len() && 0 <= b < nxt[a].points.len() implies {
                let p = #[trigger] nxt[a].points[b];
                &&& x_min <= p.time <= x_max
                &&& y_min <= p.count <= y_max
            } by {
                if a < i {
                    assert(nxt[a] == series@.take(i as int)[a]);
                } else {
                    assert(nxt[a].points@[b] == pts@[b]);
                }
            }
        }
        i = i + 1;
    }
    assert(series@.take(i as int) =~= series@);
    true
}

/// Plans a chart of `series` over `bounds`. With no point in any trace there
/// is nothing to draw (`None`). Bounds that give no chart, a point outside
/// them, or a frame the drawing cannot lay out are a `RenderError`.
pub fn plan_render(bounds: AxisBounds, series: Vec<NamedSeries>, layout: ChartLayout) -> (r: Result<
    Option<RenderPlan>,
    ChartError,
>)
    ensures
        !has_points(series@) ==> r == Ok::<Option<RenderPlan>, ChartError>(None),
        has_points(series@) && !(drawable(bounds) && points_within(
            series@,
            bounds.x_min as int,
            bounds.x_max as int,
            bounds.y_min as int,
            bounds.y_max as int,
        ) && layout.wf()) ==> r == Err::<Option<RenderPlan>, ChartError>(ChartError::RenderError),
        has_points(series@) && drawable(bounds) && points_within(
            series@,
            bounds.x_min as int,
            bounds.x_max as int,
            bounds.y_min as int,
            bounds.y_max as int,
        ) && layout.wf() ==> r == Ok::<Option<RenderPlan>, ChartError>(
            Some(
                RenderPlan {
                    x_min: bounds.x_min,
                    x_max: bounds.x_max,
                    y_min: bounds.y_min as i64,
                    y_max: bounds.y_max as i64,
                    layout,
                    series,
                },
            ),
        ),
{
    let mut any = false;
    let mut i: usize = 0;
    while i < series.len()
        invariant
            i <= series.len(),
            any == exists|j: int| 0 <= j < i && (#[trigger] series@[j]).points.len() > 0,
        decreases series.len() - i,
    {
        if series[i].points.len() > 0 {
            any = true;
        }
        i = i + 1;
    }
    if !any {
        return Ok(None);
    }
    if bounds.x_min < -AXIS_LIMIT || bounds.x_min >= bounds.x_max || bounds.x_max > AXIS_LIMIT
        || bounds.y_min >= bounds.y_max || bounds.y_max > AXIS_LIMIT as u128 {
        return Err(ChartError::RenderError);
    }
    let y_min = bounds.y_min as i64;
    let y_max = bounds.y_max as i64;
    if !points_within_exec(&series, bounds.x_min, bounds.x_max, y_min, y_max) || !layout.is_wf() {
        return Err(ChartError::RenderError);
    }
    Ok(
        Some(
            RenderPlan {
                x_min: bounds.x_min,
                x_max: bounds.x_max,
                y_min,
                y_max,
                layout,
                series,
            },
        ),
    )
}

/// A plan its drawing can take: non-empty ranges with ends within
/// `AXIS_LIMIT`, every point inside them, and a laid-out frame.
pub open spec fn plan_drawable(plan: &RenderPlan) -> bool {
    &&& -AXIS_LIMIT <= plan.x_min < plan.x_max <= AXIS_LIMIT
    &&& -AXIS_LIMIT <= plan.y_min < plan.y_max <= AXIS_LIMIT
    &&& points_within(
        plan.series@,
        plan.x_min as int,
        plan.x_max as int,
        plan.y_min as int,
        plan.y_max as int,
    )
    &&& plan.layout.wf()
}

pub fn plan_is_drawable(plan: &RenderPlan) -> (r: bool)
    ensures
        r == plan_drawable(plan),
{
    -AXIS_LIMIT <= plan.x_min && plan.x_min < plan.x_max && plan.x_max <= AXIS_LIMIT && -AXIS_LIMIT
        <= plan.y_min && plan.y_min < plan.y_max && plan.y_max <= AXIS_LIMIT && plan.layout.is_wf()
        && points_within_exec(&plan.series, plan.x_min, plan.x_max, plan.y_min, plan.y_max)
}

/// The points and color of one trace as plain values.
pub open spec fn trace_values(s: NamedSeries) -> (Seq<(int, int)>, (u8, u8, u8)) {
    (s.points@.map_values(|p: PlotPoint| (p.time as int, p.count as int)), (s.color.r, s.color.g, s.color.b))
}

/// Traces as plain values: points as integer pairs, color as a triple.
pub open spec fn plain_traces(t: Seq<(Vec<(i64, i64)>, (u8, u8, u8))>) -> Seq<
    (Seq<(int, int)>, (u8, u8, u8)),
> {
    t.map_values(
        |e: (Vec<(i64, i64)>, (u8, u8, u8))|
            (e.0@.map_values(|p: (i64, i64)| (p.0 as int, p.1 as int)), e.1),
    )
}

/// The number of points over plain traces.
pub open spec fn trace_total(t: Seq<(Seq<(int, int)>, (u8, u8, u8))>) -> int
    decreases t.len(),
{
    if t.len() == 0 {
        0
    } else {
        trace_total(t.drop_last()) + t.last().0.len()
    }
}

/// The number of points over all traces.
pub open spec fn total_points(series: Seq<NamedSeries>) -> int
    decreases series.len(),
{
    if series.len() == 0 {
        0
    } else {
        total_points(series.drop_last()) + series.last().points.len()
    }
}

/// The calendar day (`YYYY-MM-DD`, UTC) of an instant in epoch
/// milliseconds, or `None` outside the representable dates.
pub uninterp spec fn utc_day_label(ms: int) -> Option<Seq<char>>;

/// Relies on chrono's `DateTime::<Utc>::from_timestamp_millis` and
/// `format("%Y-%m-%d")`: a function of the instant alone.
#[verifier::external_body]
fn day_label(ms: i64) -> (r: Option<String>)
    ensures
        r is Some <==> utc_day_label(ms as int) is Some,
        r is Some ==> r->0@ == utc_day_label(ms as int)->0,
{
    chrono::DateTime::<chrono::Utc>::from_timestamp_millis(ms).map(|d| d.format("%Y-%m-%d").to_string())
}

/// The label of an instant on the time axis: its day, or nothing when the
/// instant has no calendar date.
pub fn axis_date_label(ms: i64) -> (r: String)
    ensures
        r@ == match utc_day_label(ms as int) {
            Some(t) => t,
            None => Seq::<char>::empty(),
        },
{
    match day_label(ms) {
        Some(t) => t,
        None => String::new(),
    }
}

/// The label of an instant on the time axis, as the mesh asks for it.
pub fn axis_day_label(ms: &i64) -> (r: String)
    ensures
        r@ == match utc_day_label(*ms as int) {
            Some(t) => t,
            None => Seq::<char>::empty(),
        },
{
    axis_date_label(*ms)
}

/// Relies on plotters (0.3) drawing to an SVG string: `SVGBackend` with a
/// `ChartBuilder` frame, a mesh labelled through `axis_day_label`, one
/// `LineSeries` per trace with point markers, then `present`.
/// - It does not panic on the inputs admitted: integer tick steps
///   (`coord/ranged1d/types/numeric.rs`) grow by tens only while a range
///   wider than the label count remains, so ends within `AXIS_LIMIT` and at
///   least one label keep them in `i64`; points inside the ranges map to
///   pixels without overflow; the frame sizes keep the pixel arithmetic of
///   `ChartBuilder` and `DrawingArea::titled` small.
/// - It succeeds: the string backend returns `Ok` from every drawing call
///   and `present`, and the built-in text metrics cannot fail.
/// - Its only `circle` elements are the point markers, one per point:
///   `LineSeries` yields one `Circle` per point when markers have a size,
///   `DrawingArea::draw` does not clip, `SVGBackend::draw_circle` writes
///   `<circle ... />` with escaped attribute values for opaque colors, and
///   text is escaped.
#[verifier::external_body]
fn svg_chart(
    x: std::ops::Range<i64>,
    y: std::ops::Range<i64>,
    traces: Vec<(Vec<(i64, i64)>, (u8, u8, u8))>,
    caption: &str,
    cs: u32,
    w: u32,
    h: u32,
    m: u32,
    a: u32,
    xl: usize,
    yl: usize,
    ps: u32,
) -> (r: Option<String>)
    requires
        -AXIS_LIMIT <= x.start < x.end <= AXIS_LIMIT,
        -AXIS_LIMIT <= y.start < y.end <= AXIS_LIMIT,
        forall|k: int, q: int|
            0 <= k < traces@.len() && 0 <= q < traces@[k].0@.len() ==> {
                let p = #[trigger] traces@[k].0@[q];
                &&& x.start <= p.0 <= x.end
                &&& y.start <= p.1 <= y.end
            },
        1 <= xl <= 50,
        1 <= yl <= 50,
        1 <= ps <= 100,
        1 <= cs <= 100,
        caption@.len() <= 200,
        m <= 1000,
        a <= 1000,
        w <= 10000,
        h <= 10000,
        2 * m + a + 100 <= w,
        2 * m + a + 2 * cs + 100 <= h,
    ensures
        r is Some,
        r is Some ==> marker_slots(r->0@).len() == trace_total(plain_traces(traces@)),
{
    let mut svg = String::new();
    {
        let root = SVGBackend::with_string(&mut svg, (w, h)).into_drawing_area();
        let mut chart = ChartBuilder::on(&root).margin(m).caption(caption, ("sans-serif", cs))
            .x_label_area_size(a).y_label_area_size(a).build_cartesian_2d(x, y).ok()?;
        chart.configure_mesh().x_labels(xl).y_labels(yl).x_label_formatter(&axis_day_label).draw().ok()?;
        for (pts, c) in traces {
            chart.draw_series(LineSeries::new(pts, RGBColor(c.0, c.1, c.2)).point_size(ps)).ok()?;
        }
        root.present().ok()?;
    }
    Some(svg)
}

proof fn lemma_totals_agree(t: Seq<(Seq<(int, int)>, (u8, u8, u8))>, series: Seq<NamedSeries>)
    requires
        t.len() == series.len(),
        forall|i: int| 0 <= i < t.len() ==> (#[trigger] t[i]).0.len() == series[i].points.len(),
    ensures
        trace_total(t) == total_points(series),
    decreases t.len(),
{
    if t.len() > 0 {
        let (t0, s0) = (t.drop_last(), series.drop_last());
        assert forall|i: int| 0 <= i < t0.len() implies (#[trigger] t0[i]).0.len()
            == s0[i].points.len() by {
            assert(t0[i] == t[i] && s0[i] == series[i]);
        }
        lemma_totals_agree(t0, s0);
    }
}

/// Draws a plan as an SVG document with one point marker per point. A plan
/// the drawing cannot take (see `plan_drawable`) is a `RenderError`; every
/// other plan is drawn.
pub fn draw_series(plan: &RenderPlan) -> (r: Result<String, ChartError>)
    ensures
        r is Ok <==> plan_drawable(plan),
        r is Err ==> r->Err_0 == ChartError::RenderError,
        r is Ok ==> marker_slots(r->Ok_0@).len() == total_points(plan.series@),
{
    if !plan_is_drawable(plan) {
        return Err(ChartError::RenderError);
    }
    let mut traces: Vec<(Vec<(i64, i64)>, (u8, u8, u8))> = Vec::new();
    let mut i: usize = 0;
    while i < plan.series.len()
        invariant
            i <= plan.series.len(),
            plan_drawable(plan),
            traces.len() == i,
            forall|k: int| 0 <= k < i ==> #[trigger] plain_traces(traces@)[k] == trace_values(plan.series@[k]),
        decreases plan.series.len() - i,
    {
        let s = &plan.series[i];
        let mut pts: Vec<(i64, i64)> = Vec::new();
        let mut j: usize = 0;
        while j < s.points.len()
            invariant
                i < plan.series.len(),
                *s == plan.series@[i as int],
                plan_drawable(plan),
                j <= s.points.len(),
                pts.len() == j,
                forall|q: int| 0 <= q < j ==> #[trigger] pts@[q] == (s.points@[q].time, s.points@[q].count as i64),
            decreases s.points.len() - j,
        {
            let p = s.points[j];
            assert(plan.series@[i as int].points[j as int].count <= i64::MAX);
            pts.push((p.time, p.count as i64));
            j = j + 1;
        }
        let ghost before = traces@;
        traces.push((pts, (s.color.r, s.color.g, s.color.b)));
        proof {
            let e = plain_traces(traces@)[i as int];
            assert(e.0 =~= trace_values(*s).0) by {
                assert forall|q: int| 0 <= q < e.0.len() implies #[trigger] e.0[q] == trace_values(*s).0[q] by {
                    assert(s.points@[q].count <= i64::MAX);
                }
            }
            assert forall|k: int| 0 <= k < i + 1 implies #[trigger] plain_traces(traces@)[k] == trace_values(plan.series@[k]) by {
                if k < i {
                    assert(traces@[k] == before[k]);
                    assert(plain_traces(before)[k] == trace_values(plan.series@[k]));
                } else {
                    assert(e.1 == trace_values(*s).1);
                }
            }
        }
        i = i + 1;
    }
    proof {
        assert(plain_traces(traces@) =~= plan.series@.map_values(|s: NamedSeries| trace_values(s)));
        lemma_totals_agree(plain_traces(traces@), plan.series@);
        assert forall|k: int, q: int|
            0 <= k < traces@.len() && 0 <= q < traces@[k].0@.len() implies {
                let p = #[trigger] traces@[k].0@[q];
                &&& plan.x_min <= p.0 <= plan.x_max
                &&& plan.y_min <= p.1 <= plan.y_max
            } by {
            assert(plain_traces(traces@)[k] == trace_values(plan.series@[k]));
            assert(plain_traces(traces@)[k].0.len() == traces@[k].0@.len());
            assert(trace_values(plan.series@[k]).0.len() == plan.series@[k].points@.len());
            assert(plain_traces(traces@)[k].0[q] == (traces@[k].0@[q].0 as int, traces@[k].0@[q].1 as int));
            let pp = plan.series@[k].points[q];
            assert(trace_values(plan.series@[k]).0[q] == (plan.series@[k].points@[q].time as int, plan.series@[k].points@[q].count as int));
        }
    }
    let l = &plan.layout;
    match svg_chart(
        plan.x_min..plan.x_max,
        plan.y_min..plan.y_max,
        traces,
        l.caption.as_str(),
        l.caption_size,
        l.width,
        l.height,
        l.margin,
        l.label_area,
        l.x_labels as usize,
        l.y_labels as usize,
        l.point_size,
    ) {
        Some(svg) => Ok(svg),
        None => Err(ChartError::RenderError),
    }
}

} // verus!
