use httprelay::exchange::Exchange;
use httprelay::history::HistoryLog;

fn mk(method: &str) -> Exchange {
    Exchange {
        method: method.to_string(),
        uri: String::new(),
        raw_request: String::new(),
        raw_response: String::new(),
        elapsed_ms: 0,
    }
}

#[test]
fn empty_log() {
    let log = HistoryLog::new();
    assert_eq!(log.len(), 0);
    assert!(log.snapshot().is_empty());
}

#[test]
fn append_below_capacity_keeps_everything() {
    let mut log = HistoryLog::new();
    for i in 0..30 {
        log.append(mk(&format!("m{}", i)));
        assert_eq!(log.len(), i + 1);
    }
    let snap = log.snapshot();
    assert_eq!(snap.len(), 30);
    for i in 0..30 {
        assert_eq!(snap[i].method, format!("m{}", i));
    }
}

#[test]
fn thirty_first_append_evicts_only_the_oldest() {
    let mut log = HistoryLog::new();
    for i in 0..31 {
        log.append(mk(&format!("m{}", i)));
    }
    assert_eq!(log.len(), 30);
    let snap = log.snapshot();
    assert_eq!(snap.len(), 30);
    for i in 0..30 {
        assert_eq!(snap[i].method, format!("m{}", i + 1));
    }
}

#[test]
fn eviction_is_strict_fifo() {
    let mut log = HistoryLog::new();
    for i in 0..40 {
        log.append(mk(&format!("m{}", i)));
        assert!(log.len() <= 30);
    }
    let snap = log.snapshot();
    assert_eq!(snap.len(), 30);
    for i in 0..30 {
        assert_eq!(snap[i].method, format!("m{}", i + 10));
    }
}

#[test]
fn snapshot_is_a_point_in_time_copy() {
    let mut log = HistoryLog::new();
    log.append(mk("first"));
    let snap = log.snapshot();
    log.append(mk("second"));
    assert_eq!(snap.len(), 1);
    assert_eq!(snap[0].method, "first");
    assert_eq!(log.len(), 2);
}
