use fiber_stats_chart::{
    build_plot_points, compute_bounds, flatten_series, renderable_bounds, AxisBounds, ChartError,
    DataPoint, Padding,
};

fn pt(t: &str, c: u64) -> DataPoint {
    DataPoint::new(t.to_string(), c)
}

fn scenario_a() -> Vec<Vec<DataPoint>> {
    vec![
        vec![pt("2024-01-01T00:00:00Z", 10), pt("2024-01-02T00:00:00Z", 15)],
        vec![],
        vec![],
    ]
}

#[test]
fn scenario_a_bounds() {
    let b = compute_bounds(&scenario_a(), Padding::standard()).unwrap();
    assert_eq!(
        b,
        AxisBounds { x_min: 1_704_067_200_000, x_max: 1_704_153_600_000, y_min: 0, y_max: 20 }
    );
}

#[test]
fn bounds_span_every_series() {
    let series = vec![
        vec![pt("2024-01-05T00:00:00Z", 3)],
        vec![pt("2024-01-01T00:00:00Z", 40), pt("2024-01-09T00:00:00Z", 1)],
        vec![pt("2024-01-03T00:00:00Z", 7)],
    ];
    let b = compute_bounds(&series, Padding { num: 1, den: 2 }).unwrap();
    assert_eq!(b.x_min, 1_704_067_200_000);
    assert_eq!(b.x_max, 1_704_758_400_000);
    assert_eq!(b.y_min, 0);
    assert_eq!(b.y_max, 60);
}

#[test]
fn padding_rounds_up() {
    let series = vec![vec![pt("2024-01-01T00:00:00Z", 1)]];
    assert_eq!(compute_bounds(&series, Padding::standard()).unwrap().y_max, 2);
    let none = Padding { num: 0, den: 1 };
    assert_eq!(compute_bounds(&series, none).unwrap().y_max, 1);
    let big = vec![vec![pt("2024-01-01T00:00:00Z", u64::MAX)]];
    let b = compute_bounds(&big, Padding { num: 1, den: 1 }).unwrap();
    assert_eq!(b.y_max, 2 * (u64::MAX as u128));
}

#[test]
fn all_empty_is_empty_series() {
    let series: Vec<Vec<DataPoint>> = vec![vec![], vec![], vec![]];
    assert_eq!(compute_bounds(&series, Padding::standard()), Err(ChartError::EmptySeries));
    let none: Vec<Vec<DataPoint>> = vec![];
    assert_eq!(compute_bounds(&none, Padding::standard()), Err(ChartError::EmptySeries));
}

#[test]
fn one_empty_series_is_not_empty_series() {
    let series = vec![vec![], vec![pt("2024-01-01T00:00:00Z", 4)], vec![]];
    assert!(compute_bounds(&series, Padding::standard()).is_ok());
}

#[test]
fn malformed_anywhere_fails_bounds() {
    let series = vec![
        vec![pt("2024-01-01T00:00:00Z", 10)],
        vec![],
        vec![pt("2024-01-02T00:00:00Z", 1), pt("not-a-date", 2)],
    ];
    assert_eq!(compute_bounds(&series, Padding::standard()), Err(ChartError::MalformedTimestamp));
}

#[test]
fn reordering_points_keeps_bounds() {
    let a = vec![
        vec![pt("2024-01-03T00:00:00Z", 5), pt("2024-01-01T00:00:00Z", 9), pt("2024-01-02T00:00:00Z", 2)],
        vec![pt("2024-01-07T00:00:00Z", 1), pt("2024-01-04T00:00:00Z", 30)],
        vec![],
    ];
    let mut b = a.clone();
    b[0].reverse();
    b[1].swap(0, 1);
    assert_eq!(
        compute_bounds(&a, Padding::standard()),
        compute_bounds(&b, Padding::standard())
    );
}

#[test]
fn single_point_gets_a_renderable_range() {
    let series = vec![vec![pt("2024-01-01T00:00:00Z", 0)]];
    let b = compute_bounds(&series, Padding::standard()).unwrap();
    assert_eq!(b.x_min, b.x_max);
    assert_eq!(b.y_max, 0);
    let r = renderable_bounds(b);
    assert_eq!(r.x_min, 1_704_067_200_000);
    assert_eq!(r.x_max, 1_704_067_200_001);
    assert_eq!(r.y_min, 0);
    assert_eq!(r.y_max, 1);
}

#[test]
fn renderable_bounds_keeps_a_proper_range() {
    let b = AxisBounds { x_min: 5, x_max: 9, y_min: 0, y_max: 20 };
    assert_eq!(renderable_bounds(b), b);
    let top = AxisBounds { x_min: i64::MAX, x_max: i64::MAX, y_min: 0, y_max: 3 };
    let r = renderable_bounds(top);
    assert_eq!((r.x_min, r.x_max), (i64::MAX - 1, i64::MAX));
}

#[test]
fn plot_points_follow_input_order() {
    let s = vec![pt("2024-01-02T00:00:00Z", 15), pt("2024-01-01T00:00:00Z", 10), pt("2024-01-02T00:00:00Z", 15)];
    let v = build_plot_points(&s).unwrap();
    assert_eq!(v.len(), 3);
    assert_eq!((v[0].time, v[0].count), (1_704_153_600_000, 15));
    assert_eq!((v[1].time, v[1].count), (1_704_067_200_000, 10));
    assert_eq!((v[2].time, v[2].count), (1_704_153_600_000, 15));
    assert_eq!(build_plot_points(&vec![pt("x", 1)]), Err(ChartError::MalformedTimestamp));
}

#[test]
fn flatten_keeps_series_then_point_order() {
    let s = vec![vec![pt("a", 1), pt("b", 2)], vec![], vec![pt("c", 3)]];
    let f = flatten_series(&s);
    let counts: Vec<u64> = f.iter().map(|p| p.count).collect();
    assert_eq!(counts, vec![1, 2, 3]);
    assert_eq!(f[2].timestamp, "c");
}
