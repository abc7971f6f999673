use fiber_stats_chart::{
    ChartController, ChartError, ChartLayout, DataPoint, Padding, Phase, StatsSeries, Surface,
};

fn pt(t: &str, c: u64) -> DataPoint {
    DataPoint::new(t.to_string(), c)
}

fn stats(overall: Vec<DataPoint>, a: Vec<DataPoint>, b: Vec<DataPoint>) -> StatsSeries {
    StatsSeries { overall, source_a: a, source_b: b }
}

fn scenario_a() -> StatsSeries {
    stats(vec![pt("2024-01-01T00:00:00Z", 10), pt("2024-01-02T00:00:00Z", 15)], vec![], vec![])
}

fn controller() -> ChartController {
    ChartController::new(Padding::standard(), ChartLayout::standard())
}

#[test]
fn scenario_a_full_pass() {
    let mut c = controller();
    assert_eq!(c.phase, Phase::Idle);
    c.request(1);
    assert_eq!(c.phase, Phase::AwaitingData);
    assert!(c.receive(1, Some(scenario_a())));
    assert_eq!(c.phase, Phase::Computing);
    c.compute();
    assert_eq!(c.phase, Phase::Rendering);
    let plan = c.plan.clone().unwrap();
    assert_eq!(plan.x_min, 1_704_067_200_000);
    assert_eq!(plan.x_max, 1_704_153_600_000);
    assert_eq!(plan.y_min, 0);
    assert_eq!(plan.y_max, 20);
    assert_eq!(plan.series.len(), 3);
    assert_eq!(plan.series[0].points.len(), 2);
    assert_eq!(plan.series[0].points[1].count, 15);
    c.render();
    assert_eq!(c.phase, Phase::Rendering);
    assert_eq!(c.surface, Surface::Blank);
    c.attach();
    c.render();
    assert_eq!(c.phase, Phase::Annotating);
    assert_eq!(c.surface, Surface::Blank);
    c.finish();
    assert_eq!(c.phase, Phase::Displayed);
    let out = match &c.surface {
        Surface::Chart(s) => s.clone(),
        other => panic!("unexpected surface {:?}", other),
    };
    assert!(out.contains(" data-y=\"10\" data-x=\"2024-01-01T00:00:00Z\"/>"));
    assert!(out.contains(" data-y=\"15\" data-x=\"2024-01-02T00:00:00Z\"/>"));
    assert_eq!(out.matches("<circle").count(), 2);
}

#[test]
fn scenario_b_all_empty_shows_empty_state() {
    let mut c = controller();
    c.request(1);
    assert!(c.receive(1, Some(stats(vec![], vec![], vec![]))));
    c.compute();
    assert_eq!(c.phase, Phase::Displayed);
    assert_eq!(c.surface, Surface::EmptyState);
    c.attach();
    c.render();
    assert_eq!(c.phase, Phase::Displayed);
    assert!(c.plan.is_none());
}

#[test]
fn scenario_c_malformed_fails_before_drawing() {
    for which in 0..3 {
        let mut c = controller();
        c.attach();
        c.request(1);
        c.receive(1, Some(scenario_a()));
        c.compute();
        c.render();
        c.finish();
        let shown = c.surface.clone();
        assert!(matches!(shown, Surface::Chart(_)));

        let mut bad = scenario_a();
        let p = pt("not-a-date", 1);
        match which {
            0 => bad.overall.push(p),
            1 => bad.source_a.push(p),
            _ => bad.source_b.push(p),
        }
        c.request(2);
        c.receive(2, Some(bad));
        assert_eq!(c.surface, shown);
        c.compute();
        assert_eq!(c.phase, Phase::Failed(ChartError::MalformedTimestamp));
        assert_eq!(c.surface, Surface::Unavailable);
        assert!(c.plan.is_none() && c.markup.is_none());
    }
}

#[test]
fn failed_fetch_shows_placeholder() {
    let mut c = controller();
    c.request(4);
    assert!(c.receive(4, None));
    assert_eq!(c.phase, Phase::Failed(ChartError::DataUnavailable));
    assert_eq!(c.surface, Surface::Unavailable);
}

#[test]
fn stale_results_are_dropped() {
    let mut c = controller();
    c.attach();
    c.request(1);
    assert!(!c.receive(0, Some(scenario_a())));
    assert_eq!(c.phase, Phase::AwaitingData);
    assert!(c.receive(1, Some(scenario_a())));
    c.compute();
    c.request(2);
    assert_eq!(c.phase, Phase::AwaitingData);
    c.render();
    c.finish();
    assert_eq!(c.phase, Phase::AwaitingData);
    assert_eq!(c.surface, Surface::Blank);
    assert!(!c.receive(1, Some(scenario_a())));
    assert!(c.receive(2, Some(scenario_a())));
}

#[test]
fn huge_counts_cannot_be_drawn() {
    let mut c = controller();
    c.request(1);
    c.receive(1, Some(stats(vec![pt("2024-01-01T00:00:00Z", u64::MAX)], vec![], vec![])));
    c.compute();
    assert_eq!(c.phase, Phase::Failed(ChartError::RenderError));
    let mut c = controller();
    c.attach();
    c.request(2);
    c.receive(2, Some(stats(vec![pt("2024-01-01T00:00:00Z", 6_500_000_000_000_000_000)], vec![], vec![])));
    c.compute();
    assert_eq!(c.phase, Phase::Failed(ChartError::RenderError));
    c.render();
    assert_eq!(c.surface, Surface::Unavailable);
}

#[test]
fn steps_out_of_turn_change_nothing() {
    let mut c = controller();
    c.compute();
    c.render();
    c.finish();
    assert_eq!(c.phase, Phase::Idle);
    assert_eq!(c.surface, Surface::Blank);
}
