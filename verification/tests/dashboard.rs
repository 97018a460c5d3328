use easylog::dashboard::{dashboard, pct, status_bars, status_class, to_bars, Bar};

fn pairs(rows: &[(&str, i64)]) -> Vec<(String, i64)> {
    rows.iter().map(|(label, count)| (label.to_string(), *count)).collect()
}

fn shown(bars: &[Bar]) -> Vec<(String, i64, i64, String)> {
    bars.iter().map(|b| (b.label.clone(), b.count, b.pct, b.css.clone())).collect()
}

fn bar(label: &str, count: i64, pct: i64, css: &str) -> (String, i64, i64, String) {
    (label.to_string(), count, pct, css.to_string())
}

#[test]
fn percentages() {
    assert_eq!(pct(0, 0), 0);
    assert_eq!(pct(5, 0), 0);
    assert_eq!(pct(5, -3), 0);
    assert_eq!(pct(-5, 3), 0);
    assert_eq!(pct(3, 7), 42);
    assert_eq!(pct(7, 7), 100);
    assert_eq!(pct(8, 7), 100);
    assert_eq!(pct(i64::MAX, 0), 0);
    assert_eq!(pct(i64::MAX / 100, i64::MAX), 0);
    assert_eq!(pct(i64::MAX, i64::MAX), 100);
    assert_eq!(pct(i64::MAX / 2, i64::MAX), 49);
    assert_eq!(pct(i64::MAX, 1), 100);
    assert_eq!(pct(i64::MIN, i64::MAX), 0);
}

#[test]
fn percentages_grow_with_the_count() {
    for max in [1, 3, 17, 100] {
        for count in -3..120 {
            assert!(pct(count, max) <= pct(count + 1, max));
            assert!((0..=100).contains(&pct(count, max)));
        }
        assert_eq!(pct(max, max), 100);
    }
}

#[test]
fn bars_are_scaled_to_the_largest() {
    let bars = to_bars(pairs(&[("/a", 10), ("/b", 40), ("/c", 1), ("/d", 0)]), "x");
    assert_eq!(
        shown(&bars),
        vec![
            bar("/a", 10, 25, "x"),
            bar("/b", 40, 100, "x"),
            bar("/c", 1, 2, "x"),
            bar("/d", 0, 0, "x"),
        ]
    );
}

#[test]
fn bars_of_no_rows_and_of_no_counts() {
    assert!(to_bars(vec![], "").is_empty());
    let bars = to_bars(pairs(&[("a", 0), ("b", -4)]), "");
    assert_eq!(shown(&bars), vec![bar("a", 0, 0, ""), bar("b", -4, 0, "")]);
    let bars = to_bars(pairs(&[("a", -9)]), "");
    assert_eq!(shown(&bars), vec![bar("a", -9, 0, "")]);
}

#[test]
fn bars_of_extreme_counts() {
    let bars = to_bars(pairs(&[("a", i64::MAX), ("b", i64::MIN), ("c", i64::MAX / 4)]), "");
    assert_eq!(
        shown(&bars),
        vec![
            bar("a", i64::MAX, 100, ""),
            bar("b", i64::MIN, 0, ""),
            bar("c", i64::MAX / 4, 24, ""),
        ]
    );
    let bars = status_bars(vec![(2, i64::MAX)]);
    assert_eq!(shown(&bars), vec![bar("2xx", i64::MAX, 100, "ok")]);
}

#[test]
fn status_classes_have_colours() {
    assert_eq!(status_class(2), "ok");
    assert_eq!(status_class(3), "redir");
    assert_eq!(status_class(4), "warn");
    assert_eq!(status_class(5), "err");
    assert_eq!(status_class(1), "err");
    assert_eq!(status_class(-2), "err");
}

#[test]
fn status_breakdown() {
    let bars = status_bars(vec![(2, 200), (3, 50), (4, 7), (5, 1), (-1, 0)]);
    assert_eq!(
        shown(&bars),
        vec![
            bar("2xx", 200, 100, "ok"),
            bar("3xx", 50, 25, "redir"),
            bar("4xx", 7, 3, "warn"),
            bar("5xx", 1, 0, "err"),
            bar("-1xx", 0, 0, "err"),
        ]
    );
}

#[test]
fn dashboard_of_rows() {
    let shown_board = dashboard(
        Some((1000, 12, 5 * 1024 * 1024, 42)),
        pairs(&[("09:00", 600), ("10:00", 400)]),
        vec![(2, 958), (4, 42)],
        pairs(&[("/", 700), ("/x", 300)]),
        pairs(&[("10.0.0.1", 1000)]),
    );
    assert_eq!(shown_board.kpis.requests, 1000);
    assert_eq!(shown_board.kpis.unique_ips, 12);
    assert_eq!(shown_board.kpis.total_bytes, "5.0 MB");
    assert_eq!(shown_board.kpis.error_rate, "4.2%");
    assert_eq!(
        shown(&shown_board.timeline),
        vec![bar("09:00", 600, 100, ""), bar("10:00", 400, 66, "")]
    );
    assert_eq!(
        shown(&shown_board.statuses),
        vec![bar("2xx", 958, 100, "ok"), bar("4xx", 42, 4, "warn")]
    );
    assert_eq!(shown(&shown_board.top_urls), vec![bar("/", 700, 100, ""), bar("/x", 300, 42, "")]);
    assert_eq!(shown(&shown_board.top_ips), vec![bar("10.0.0.1", 1000, 100, "")]);
    assert!(shown_board.has_data);
}

#[test]
fn dashboard_without_rows() {
    let empty = dashboard(None, vec![], vec![], vec![], vec![]);
    assert_eq!(empty.kpis.requests, 0);
    assert_eq!(empty.kpis.unique_ips, 0);
    assert_eq!(empty.kpis.total_bytes, "0 B");
    assert_eq!(empty.kpis.error_rate, "0.0%");
    assert!(empty.timeline.is_empty() && empty.statuses.is_empty());
    assert!(empty.top_urls.is_empty() && empty.top_ips.is_empty());
    assert!(!empty.has_data);
}
