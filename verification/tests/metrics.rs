use slipstream::metrics::{log_metrics, Metrics};

#[test]
fn metrics_line_reports_every_counter() {
    let mut m = Metrics::default();
    m.inc_tx_attempted();
    m.inc_tx_attempted();
    m.inc_tx_sent();
    assert_eq!(
        log_metrics("fire", &m),
        "Metrics [fire]: attempted=2 sent=1 failed=0 leader_lookup_failed=0 geyser_reconnects=0"
    );
}

#[test]
fn each_counter_counts_its_own() {
    let mut m = Metrics::default();
    m.inc_tx_attempted();
    for _ in 0..2 {
        m.inc_tx_sent();
    }
    for _ in 0..3 {
        m.inc_tx_failed();
    }
    for _ in 0..4 {
        m.inc_leader_lookup_failed();
    }
    for _ in 0..15 {
        m.inc_geyser_reconnects();
    }
    let s = m.snapshot();
    assert_eq!(s.tx_attempted, 1);
    assert_eq!(s.tx_sent, 2);
    assert_eq!(s.tx_failed, 3);
    assert_eq!(s.leader_lookup_failed, 4);
    assert_eq!(s.geyser_reconnects, 15);
    assert_eq!(
        log_metrics("monitor", &m),
        "Metrics [monitor]: attempted=1 sent=2 failed=3 leader_lookup_failed=4 geyser_reconnects=15"
    );
}
