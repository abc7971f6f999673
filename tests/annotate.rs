use fiber_stats_chart::{annotate, decimal_string, ChartError, DataPoint};

fn pt(t: &str, c: u64) -> DataPoint {
    DataPoint::new(t.to_string(), c)
}

const TWO: &str = "<svg>\n<circle cx=\"1\" cy=\"2\" r=\"2\"/>\n<polyline points=\"1,2 3,4\"/>\n<circle cx=\"3\" cy=\"4\" r=\"2\"/>\n</svg>\n";

#[test]
fn decimal_text() {
    assert_eq!(decimal_string(0), "0");
    assert_eq!(decimal_string(7), "7");
    assert_eq!(decimal_string(10), "10");
    assert_eq!(decimal_string(1234567890), "1234567890");
    assert_eq!(decimal_string(u64::MAX), "18446744073709551615");
}

#[test]
fn markers_get_points_in_order() {
    let pts = vec![pt("2024-01-01T00:00:00Z", 10), pt("2024-01-02T00:00:00Z", 15)];
    let out = annotate(TWO, &pts).unwrap();
    assert_eq!(
        out,
        "<svg>\n<circle cx=\"1\" cy=\"2\" r=\"2\" data-y=\"10\" data-x=\"2024-01-01T00:00:00Z\"/>\n<polyline points=\"1,2 3,4\"/>\n<circle cx=\"3\" cy=\"4\" r=\"2\" data-y=\"15\" data-x=\"2024-01-02T00:00:00Z\"/>\n</svg>\n"
    );
}

#[test]
fn extra_points_are_left_over() {
    let pts = vec![pt("a", 1), pt("b", 2), pt("c", 3)];
    let out = annotate(TWO, &pts).unwrap();
    assert!(out.contains("data-y=\"1\" data-x=\"a\""));
    assert!(out.contains("data-y=\"2\" data-x=\"b\""));
    assert!(!out.contains("data-x=\"c\""));
}

#[test]
fn more_markers_than_points_fails() {
    let pts = vec![pt("a", 1)];
    assert_eq!(annotate(TWO, &pts), Err(ChartError::AnnotationIndexOutOfRange));
    assert_eq!(annotate(TWO, &vec![]), Err(ChartError::AnnotationIndexOutOfRange));
}

#[test]
fn no_markers_leaves_markup_unchanged() {
    let m = "<svg><rect x=\"0\"/><text>circle</text><circles/><circle>x</circle></svg>";
    assert_eq!(annotate(m, &vec![]), Ok(m.to_string()));
    assert_eq!(annotate("", &vec![pt("a", 1)]), Ok(String::new()));
}

#[test]
fn marker_forms() {
    let m = "<circle/><circle\tr=\"1\" /><circle\nr=\"2\">";
    let pts = vec![pt("a", 1), pt("b", 2)];
    assert_eq!(
        annotate(m, &pts).unwrap(),
        "<circle data-y=\"1\" data-x=\"a\"/><circle\tr=\"1\"  data-y=\"2\" data-x=\"b\"/><circle\nr=\"2\">"
    );
}

#[test]
fn timestamp_text_is_escaped() {
    let pts = vec![pt("<a&b>\"'\r\n\t c", 5)];
    let out = annotate("<circle r=\"2\"/>", &pts).unwrap();
    assert_eq!(
        out,
        "<circle r=\"2\" data-y=\"5\" data-x=\"&lt;a&amp;b&gt;&quot;&apos;&#13;&#10;&#9; c\"/>"
    );
}

#[test]
fn non_ascii_text_is_kept() {
    let m = "<text>Téléchargements ✓</text><circle r=\"2\"/>";
    let out = annotate(m, &vec![pt("ü", 3)]).unwrap();
    assert_eq!(out, "<text>Téléchargements ✓</text><circle r=\"2\" data-y=\"3\" data-x=\"ü\"/>");
}

#[test]
fn annotating_twice_gives_the_same_text() {
    let pts = vec![pt("2024-01-01T00:00:00Z", 10), pt("2024-01-02T00:00:00Z", 15)];
    assert_eq!(annotate(TWO, &pts), annotate(TWO, &pts));
}
