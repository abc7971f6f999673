use fiber_stats_chart::{
    annotate, axis_date_label, color_of, draw_series, plan_render, AxisBounds, ChartController,
    ChartError, ChartLayout, DataPoint, NamedSeries, Padding, Phase, PlotPoint, Rgb, SeriesRole,
    StatsSeries, Surface,
};

fn pt(t: &str, c: u64) -> DataPoint {
    DataPoint::new(t.to_string(), c)
}

/// Runs a pass up to the drawing; returns the controller and the drawn markup.
fn run_pass(data: StatsSeries) -> (ChartController, Option<String>) {
    let mut c = ChartController::new(Padding::standard(), ChartLayout::standard());
    c.attach();
    c.request(7);
    c.receive(7, Some(data));
    c.compute();
    c.render();
    let raw = c.markup.clone();
    c.finish();
    (c, raw)
}

fn attr_values(markup: &str, key: &str) -> Vec<String> {
    let pat = format!(" {}=\"", key);
    markup
        .match_indices(&pat)
        .map(|(i, _)| {
            let rest = &markup[i + pat.len()..];
            rest[..rest.find('"').unwrap()].to_string()
        })
        .collect()
}

fn shown(c: &ChartController) -> String {
    match &c.surface {
        Surface::Chart(s) => s.clone(),
        other => panic!("unexpected surface {:?}", other),
    }
}

#[test]
fn colors_per_role() {
    assert_eq!(color_of(SeriesRole::Overall), Rgb { r: 30, g: 136, b: 229 });
    assert_eq!(color_of(SeriesRole::SourceA), Rgb { r: 67, g: 160, b: 71 });
    assert_eq!(color_of(SeriesRole::SourceB), Rgb { r: 251, g: 140, b: 0 });
}

#[test]
fn day_labels() {
    assert_eq!(axis_date_label(1_704_067_200_000), "2024-01-01");
    assert_eq!(axis_date_label(1_704_153_599_999), "2024-01-01");
    assert_eq!(axis_date_label(0), "1970-01-01");
    assert_eq!(axis_date_label(-1), "1969-12-31");
    assert_eq!(axis_date_label(i64::MAX), "");
}

#[test]
fn no_points_means_no_markup() {
    let b = AxisBounds { x_min: 0, x_max: 1, y_min: 0, y_max: 1 };
    let traces = vec![NamedSeries::new(SeriesRole::Overall, vec![])];
    assert!(matches!(plan_render(b, traces, ChartLayout::standard()), Ok(None)));
    assert!(matches!(plan_render(b, vec![], ChartLayout::standard()), Ok(None)));
}

#[test]
fn degenerate_range_is_a_render_error() {
    let traces = || vec![NamedSeries::new(SeriesRole::Overall, vec![PlotPoint { time: 5, count: 1 }])];
    let flat = AxisBounds { x_min: 5, x_max: 5, y_min: 0, y_max: 2 };
    assert!(matches!(plan_render(flat, traces(), ChartLayout::standard()), Err(ChartError::RenderError)));
    let low = AxisBounds { x_min: 4, x_max: 6, y_min: 0, y_max: 0 };
    assert!(matches!(plan_render(low, traces(), ChartLayout::standard()), Err(ChartError::RenderError)));
    let high = AxisBounds { x_min: 4, x_max: 6, y_min: 0, y_max: 1u128 << 63 };
    assert!(matches!(plan_render(high, traces(), ChartLayout::standard()), Err(ChartError::RenderError)));
    let big = vec![NamedSeries::new(SeriesRole::Overall, vec![PlotPoint { time: 5, count: u64::MAX }])];
    let ok = AxisBounds { x_min: 4, x_max: 6, y_min: 0, y_max: 3 };
    assert!(matches!(plan_render(ok, big, ChartLayout::standard()), Err(ChartError::RenderError)));
    let plan = plan_render(ok, traces(), ChartLayout::standard()).unwrap().unwrap();
    assert_eq!((plan.x_min, plan.x_max, plan.y_min, plan.y_max), (4, 6, 0, 3));
    let wide = AxisBounds { x_min: 4, x_max: 6, y_min: 0, y_max: 200_000_000_000_000_000 };
    assert!(matches!(plan_render(wide, traces(), ChartLayout::standard()), Err(ChartError::RenderError)));
    let outside = AxisBounds { x_min: 6, x_max: 9, y_min: 0, y_max: 3 };
    assert!(matches!(plan_render(outside, traces(), ChartLayout::standard()), Err(ChartError::RenderError)));
    let mut no_labels = ChartLayout::standard();
    no_labels.x_labels = 0;
    assert!(matches!(plan_render(ok, traces(), no_labels), Err(ChartError::RenderError)));
}

#[test]
fn undrawable_plans_are_refused() {
    let traces = vec![NamedSeries::new(SeriesRole::Overall, vec![PlotPoint { time: 5, count: 1 }])];
    let b = AxisBounds { x_min: 4, x_max: 6, y_min: 0, y_max: 3 };
    let plan = plan_render(b, traces, ChartLayout::standard()).unwrap().unwrap();
    assert!(draw_series(&plan).is_ok());
    let mut flat = plan.clone();
    flat.x_max = flat.x_min;
    assert_eq!(draw_series(&flat), Err(ChartError::RenderError));
    let mut tall = plan.clone();
    tall.y_max = 8_000_000_000_000_000_000;
    assert_eq!(draw_series(&tall), Err(ChartError::RenderError));
    let mut tiny = plan.clone();
    tiny.layout.width = 100;
    assert_eq!(draw_series(&tiny), Err(ChartError::RenderError));
    let mut stray = plan.clone();
    stray.series[0].points[0].time = 100;
    assert_eq!(draw_series(&stray), Err(ChartError::RenderError));
}

#[test]
fn large_counts_within_the_axis_limit_draw() {
    let data = StatsSeries {
        overall: vec![pt("2024-01-01T00:00:00Z", 50_000_000_000_000_000), pt("2024-01-02T00:00:00Z", 1)],
        source_a: vec![],
        source_b: vec![],
    };
    let (c, raw) = run_pass(data);
    assert_eq!(raw.unwrap().matches("<circle").count(), 2);
    assert_eq!(c.phase, Phase::Displayed);
}

#[test]
fn drawing_has_one_marker_per_point() {
    let traces = vec![
        NamedSeries::new(SeriesRole::Overall, vec![PlotPoint { time: 0, count: 1 }, PlotPoint { time: 10, count: 5 }]),
        NamedSeries::new(SeriesRole::SourceA, vec![]),
        NamedSeries::new(SeriesRole::SourceB, vec![PlotPoint { time: 3, count: 2 }]),
    ];
    let b = AxisBounds { x_min: 0, x_max: 10, y_min: 0, y_max: 7 };
    let plan = plan_render(b, traces, ChartLayout::standard()).unwrap().unwrap();
    let svg = draw_series(&plan).unwrap();
    assert!(svg.starts_with("<svg"));
    assert_eq!(svg.matches("<circle").count(), 3);
    assert!(svg.contains("Downloads Over Time"));
    assert!(svg.contains("#1E88E5") || svg.contains("#1e88e5"));
    assert_eq!(draw_series(&plan).unwrap(), svg);
}

#[test]
fn scenario_a_drawn_and_annotated() {
    let data = StatsSeries {
        overall: vec![pt("2024-01-01T00:00:00Z", 10), pt("2024-01-02T00:00:00Z", 15)],
        source_a: vec![],
        source_b: vec![],
    };
    let (c, raw) = run_pass(data);
    assert_eq!(raw.unwrap().matches("<circle").count(), 2);
    assert_eq!(c.phase, Phase::Displayed);
    let out = shown(&c);
    assert_eq!(attr_values(&out, "data-y"), vec!["10", "15"]);
    assert_eq!(attr_values(&out, "data-x"), vec!["2024-01-01T00:00:00Z", "2024-01-02T00:00:00Z"]);
    assert!(out.contains("2024-01-01"));
}

#[test]
fn every_point_is_attached_in_series_order() {
    let data = StatsSeries {
        overall: vec![
            pt("2024-03-01T00:00:00Z", 100),
            pt("2024-03-02T00:00:00Z", 140),
            pt("2024-03-03T00:00:00Z", 190),
        ],
        source_a: vec![pt("2024-03-01T00:00:00Z", 60), pt("2024-03-03T00:00:00Z", 110)],
        source_b: vec![pt("2024-03-02T00:00:00Z", 50)],
    };
    let (c, raw) = run_pass(data);
    assert_eq!(raw.unwrap().matches("<circle").count(), 6);
    assert_eq!(attr_values(&shown(&c), "data-y"), vec!["100", "140", "190", "60", "110", "50"]);
}

#[test]
fn rendering_and_annotating_are_repeatable() {
    let data = || StatsSeries {
        overall: vec![pt("2024-01-01T00:00:00Z", 10), pt("2024-01-02T00:00:00Z", 15)],
        source_a: vec![pt("2024-01-01T00:00:00Z", 4)],
        source_b: vec![],
    };
    let (c1, raw1) = run_pass(data());
    let (c2, raw2) = run_pass(data());
    assert_eq!(raw1, raw2);
    assert_eq!(c1.surface, c2.surface);
    let raw = raw1.unwrap();
    let pts = vec![pt("a", 1), pt("b", 2), pt("c", 3)];
    assert_eq!(annotate(&raw, &pts), annotate(&raw, &pts));
}

#[test]
fn single_point_is_drawable() {
    for count in [7, 0] {
        let data = StatsSeries {
            overall: vec![pt("2024-01-01T00:00:00Z", count)],
            source_a: vec![],
            source_b: vec![],
        };
        let (c, raw) = run_pass(data);
        assert_eq!(raw.unwrap().matches("<circle").count(), 1);
        assert_eq!(c.phase, Phase::Displayed);
        assert_eq!(attr_values(&shown(&c), "data-y"), vec![count.to_string()]);
    }
}
