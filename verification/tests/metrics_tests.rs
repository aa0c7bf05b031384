use concurrency::AmapMetrics;
use concurrency::Metrics;
use concurrency::MetricsError;

#[test]
fn counters_grow_on_demand() {
    let mut m = Metrics::new();
    m.increment(String::from("req.page.1")).unwrap();
    m.increment(String::from("req.page.1")).unwrap();
    m.increment(String::from("req.page.2")).unwrap();
    m.decrement(String::from("req.page.1")).unwrap();
    let snap = m.snapshot().unwrap();
    assert_eq!(snap.len(), 2);
    assert_eq!(snap[0].0, "req.page.1");
    assert_eq!(snap[0].1, 1);
    assert_eq!(snap[1].0, "req.page.2");
    assert_eq!(snap[1].1, 1);
}

#[test]
fn decrement_creates_a_negative_counter() {
    let mut m = Metrics::new();
    m.decrement(String::from("drops")).unwrap();
    m.decrement(String::from("drops")).unwrap();
    let snap = m.snapshot().unwrap();
    assert_eq!(snap, vec![(String::from("drops"), -2)]);
}

#[test]
fn default_metrics_start_empty() {
    let m = Metrics::default();
    assert_eq!(m.snapshot().unwrap().len(), 0);
}

#[test]
fn metrics_render_one_line_per_counter() {
    let mut m = Metrics::new();
    m.increment(String::from("calls")).unwrap();
    m.increment(String::from("calls")).unwrap();
    m.decrement(String::from("errors")).unwrap();
    assert_eq!(m.render(), "calls: 2\nerrors: -1\n");
}

#[test]
fn fixed_key_counters_update_within_the_key_set() {
    let names = vec![String::from("call.thread.0"), String::from("call.thread.1")];
    let mut m = AmapMetrics::new(&names);
    let key = String::from("call.thread.0");
    m.increment(&key).unwrap();
    m.increment(&key).unwrap();
    let other = String::from("call.thread.1");
    m.decrement(&other).unwrap();
    assert_eq!(m.render(), "call.thread.0: 2\ncall.thread.1: -1\n");
}

#[test]
fn unknown_key_is_rejected_and_changes_nothing() {
    let names = vec![String::from("known")];
    let mut m = AmapMetrics::new(&names);
    let missing = String::from("missing");
    assert_eq!(m.increment(&missing).unwrap_err(), MetricsError::KeyNotFound);
    assert_eq!(m.decrement(&missing).unwrap_err(), MetricsError::KeyNotFound);
    assert_eq!(m.render(), "known: 0\n");
}

#[test]
fn repeated_names_collapse_to_one_counter() {
    let names = vec![
        String::from("dup"),
        String::from("other"),
        String::from("dup"),
    ];
    let mut m = AmapMetrics::new(&names);
    let key = String::from("dup");
    m.increment(&key).unwrap();
    assert_eq!(m.render(), "dup: 1\nother: 0\n");
}
