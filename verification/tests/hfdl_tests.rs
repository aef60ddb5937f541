use sdroxide_ui::hfdl::{HfdlFix, HfdlMapState, HfdlPlot, PLOT_STALE_S};

/// What the map would draw for a fix: here just its position.
type Pos = (f64, f64);

fn fix(unix: i64, key: &str, lat: f64, lon: f64) -> Option<HfdlFix<Pos>> {
    Some(HfdlFix { key: key.to_string(), unix, data: (lat, lon) })
}

fn plot_of<'a>(m: &'a HfdlMapState<Pos>, key: &str) -> Option<&'a HfdlPlot<Pos>> {
    m.plots().iter().find(|(k, _)| k.as_str() == key).map(|(_, p)| p)
}

#[test]
fn observe_keeps_the_newest_fix_per_identity() {
    let mut m = HfdlMapState::new();
    let now = 1_000;
    // Newest first, as the status log is.
    m.observe(
        vec![fix(now, "icao:040087", 50.0, -3.0), fix(now - 300, "icao:040087", 49.0, -2.0)],
        now,
    );
    assert_eq!(m.len(), 1, "one aircraft, one plot");
    let (key, plot) = &m.plots()[0];
    assert_eq!(key, "icao:040087");
    assert!((plot.data.0 - 50.0).abs() < 1e-9, "the newer fix wins");
    assert_eq!(plot.fixes, 1);
}

#[test]
fn observe_is_idempotent_on_a_repeated_snapshot() {
    let mut m = HfdlMapState::new();
    m.observe(vec![fix(1_000, "icao:040087", 50.0, -3.0)], 1_000);
    m.observe(vec![fix(1_000, "icao:040087", 50.0, -3.0)], 1_000);
    m.observe(vec![fix(1_000, "icao:040087", 50.0, -3.0)], 1_000);
    let plot = plot_of(&m, "icao:040087").unwrap();
    assert_eq!(plot.fixes, 1, "the same fix must not count three times");
}

#[test]
fn a_newer_fix_moves_the_plot_and_counts() {
    let mut m = HfdlMapState::new();
    m.observe(vec![fix(1_000, "icao:040087", 50.0, -3.0)], 1_000);
    m.observe(vec![fix(1_060, "icao:040087", 51.0, -4.0)], 1_060);
    let plot = plot_of(&m, "icao:040087").unwrap();
    assert!((plot.data.1 + 4.0).abs() < 1e-9);
    assert_eq!(plot.fixes, 2);
    assert_eq!(plot.last_at, 1_060);
}

#[test]
fn old_plots_are_retired() {
    let mut m = HfdlMapState::new();
    m.observe(vec![fix(1_000, "icao:040087", 50.0, -3.0)], 1_000);
    m.observe(vec![], 1_000 + PLOT_STALE_S + 1);
    assert!(m.is_empty(), "a plot nothing refreshes must come off the map");
}

#[test]
fn a_plot_exactly_at_the_limit_stays() {
    let mut m = HfdlMapState::new();
    m.observe(vec![fix(1_000, "icao:040087", 50.0, -3.0)], 1_000 + PLOT_STALE_S);
    assert_eq!(m.len(), 1);
}

#[test]
fn a_decode_without_a_position_plots_nothing() {
    let mut m: HfdlMapState<Pos> = HfdlMapState::new();
    m.observe(vec![None], 1_000);
    assert!(m.is_empty());
}

#[test]
fn plots_come_out_oldest_heard_first_one_per_identity() {
    let mut m = HfdlMapState::new();
    m.observe(
        vec![
            fix(1_000, "id:66", 10.0, 10.0),
            fix(990, "icao:A1B2C3", 20.0, 20.0),
            fix(990, "id:66", 11.0, 11.0),
            fix(990, "icao:040087", 30.0, 30.0),
            fix(900, "id:77", 40.0, 40.0),
        ],
        1_000,
    );
    let keys: Vec<&str> = m.plots().iter().map(|(k, _)| k.as_str()).collect();
    assert_eq!(keys, vec!["id:77", "icao:040087", "icao:A1B2C3", "id:66"]);
    assert_eq!(plot_of(&m, "id:66").unwrap().data.0, 10.0);
    m.observe(vec![fix(1_010, "id:77", 41.0, 41.0)], 1_010);
    let keys: Vec<&str> = m.plots().iter().map(|(k, _)| k.as_str()).collect();
    assert_eq!(keys, vec!["icao:040087", "icao:A1B2C3", "id:66", "id:77"], "a refreshed plot moves to the end");
}

#[test]
fn selecting_a_plot_leaves_the_table_alone() {
    let mut m = HfdlMapState::new();
    m.observe(vec![fix(1_000, "icao:040087", 50.0, -3.0)], 1_000);
    m.select(Some("icao:040087".to_string()));
    assert_eq!(m.selected().as_deref(), Some("icao:040087"));
    assert_eq!(m.len(), 1);
    m.select(None);
    assert!(m.selected().is_none());
}

#[test]
fn the_plot_order_depends_only_on_what_is_plotted() {
    let mut a = HfdlMapState::new();
    a.observe(vec![fix(995, "id:1", 1.0, 1.0), fix(995, "id:2", 2.0, 2.0)], 1_000);
    a.observe(vec![fix(990, "id:3", 3.0, 3.0)], 1_000);
    let mut b = HfdlMapState::new();
    b.observe(vec![fix(990, "id:3", 3.0, 3.0), fix(995, "id:2", 2.0, 2.0)], 1_000);
    b.observe(vec![fix(995, "id:1", 1.0, 1.0)], 1_000);
    let ka: Vec<&str> = a.plots().iter().map(|(k, _)| k.as_str()).collect();
    let kb: Vec<&str> = b.plots().iter().map(|(k, _)| k.as_str()).collect();
    assert_eq!(ka, kb);
    assert_eq!(ka, vec!["id:3", "id:1", "id:2"]);
}

#[test]
fn a_default_map_plots_nothing() {
    let m: HfdlMapState<Pos> = HfdlMapState::default();
    assert!(m.is_empty());
    assert_eq!(m.len(), 0);
    assert!(m.selected().is_none());
}
