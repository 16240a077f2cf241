use slipstream::cartographer::Cartographer;
use slipstream::error::SlipstreamError;
use slipstream::geyser::{auth_token, endpoint_from_parts, geyser_error, record_startup, split_endpoint, track_slot, GeyserMonitor, GeyserStage, SlotUpdate, Startup, UriParts, MAX_DELAY_NS};
use slipstream::metrics::Metrics;

fn split(url: &str) -> (String, Option<String>) {
    let e = split_endpoint(url.to_string()).unwrap();
    (e.url, e.token)
}

fn some(s: &str) -> Option<String> {
    Some(s.to_string())
}

#[test]
fn path_is_the_token() {
    assert_eq!(split("https://a.b:443/tok-1"), ("https://a.b:443".to_string(), some("tok-1")));
    assert_eq!(split("http://a.b/x/y?z=1"), ("http://a.b".to_string(), some("x/y?z=1")));
    assert_eq!(split("http://u@a.b//t/"), ("http://u@a.b".to_string(), some("t/")));
    assert_eq!(split("http://a.b//"), ("http://a.b".to_string(), some("")));
}

#[test]
fn address_without_path_stays() {
    assert_eq!(split("https://a.b:443"), ("https://a.b:443".to_string(), None));
    assert_eq!(split("https://a.b/"), ("https://a.b/".to_string(), None));
    assert_eq!(split("a.b:443"), ("a.b:443".to_string(), None));
    assert_eq!(split("not a uri /x"), ("not a uri /x".to_string(), None));
    assert_eq!(split(""), ("".to_string(), None));
}

#[test]
fn path_without_authority_is_refused() {
    let e = split_endpoint("/token".to_string()).unwrap_err();
    assert_eq!(e.message(), "invalid uri: geyser url missing authority: /token");
}

#[test]
fn scheme_is_https_unless_given() {
    let parts = |scheme: Option<String>| {
        Some(UriParts { scheme, authority: some("h"), path_and_query: some("/t") })
    };
    let e = endpoint_from_parts("u".to_string(), parts(None)).unwrap();
    assert_eq!((e.url, e.token), ("https://h".to_string(), some("t")));
    let e = endpoint_from_parts("u".to_string(), parts(some("http"))).unwrap();
    assert_eq!((e.url, e.token), ("http://h".to_string(), some("t")));
    let e = endpoint_from_parts("u".to_string(), None).unwrap();
    assert_eq!((e.url, e.token), ("u".to_string(), None));
}

#[test]
fn token_must_fit_into_a_header() {
    assert_eq!(auth_token(&None), Ok(None));
    assert_eq!(auth_token(&some("")), Ok(some("")));
    assert_eq!(auth_token(&some("a\tb ~\u{e9}")), Ok(some("a\tb ~\u{e9}")));
    for bad in ["a\nb", "\u{0}", "\u{1f}", "a\u{7f}"] {
        assert_eq!(auth_token(&some(bad)), Err("invalid token format".to_string()));
    }
}

#[test]
fn only_processed_slots_move_the_clock() {
    let mut c = Cartographer::new(String::new());
    track_slot(&mut c, Some(SlotUpdate { slot: 8, status: 0 }));
    assert_eq!(c.get_known_slot(), 8);
    track_slot(&mut c, Some(SlotUpdate { slot: 9, status: 1 }));
    track_slot(&mut c, None);
    track_slot(&mut c, Some(SlotUpdate { slot: 10, status: -1 }));
    assert_eq!(c.get_known_slot(), 8);
    track_slot(&mut c, Some(SlotUpdate { slot: 3, status: 0 }));
    assert_eq!(c.get_known_slot(), 3);
}

#[test]
fn waits_double_up_to_the_longest() {
    let mut m = GeyserMonitor::new(3, 20);
    let waits: Vec<u128> = (0..5).map(|_| m.next_wait()).collect();
    assert_eq!(waits, vec![3, 6, 12, 20, 20]);
    let mut m = GeyserMonitor::new(30, 20);
    assert_eq!(m.retry_delay(), 30);
    assert_eq!(m.next_wait(), 30);
    assert_eq!(m.next_wait(), 20);
    let mut m = GeyserMonitor::new(MAX_DELAY_NS / 2, MAX_DELAY_NS);
    m.next_wait();
    assert_eq!(m.retry_delay(), MAX_DELAY_NS - 1);
}

#[test]
fn connection_resets_the_wait_and_the_first_attempt_is_reported() {
    let mut m = GeyserMonitor::new(1, 8);
    let failed = Err(SlipstreamError::InvalidUri("u".to_string()));
    match m.connected(&failed) {
        Some(Err(SlipstreamError::Geyser(s))) => assert_eq!(s, "invalid uri: u"),
        r => panic!("{:?}", r),
    }
    m.next_wait();
    m.next_wait();
    assert!(m.connected(&failed).is_none());
    assert_eq!(m.retry_delay(), 4);
    assert!(m.connected(&Ok(())).is_none());
    assert_eq!(m.retry_delay(), 1);
    let mut m = GeyserMonitor::new(1, 8);
    assert!(matches!(m.connected(&Ok(())), Some(Ok(()))));
    assert!(m.connected(&failed).is_none());
}

#[test]
fn startups_that_fail_are_counted() {
    let mut m = Metrics::default();
    record_startup(Startup::Connected, &mut m);
    assert_eq!(m.snapshot().geyser_reconnects, 0);
    record_startup(Startup::Failed, &mut m);
    record_startup(Startup::SignalLost, &mut m);
    record_startup(Startup::TimedOut, &mut m);
    assert_eq!(m.snapshot().geyser_reconnects, 3);
}

#[test]
fn failed_stage_is_named() {
    let text = |s| geyser_error(s, "x").message();
    assert_eq!(text(GeyserStage::Endpoint), "invalid uri: invalid endpoint: x");
    assert_eq!(text(GeyserStage::Tls), "geyser error: tls config failed: x");
    assert_eq!(text(GeyserStage::Connect), "geyser error: connect failed: x");
    assert_eq!(text(GeyserStage::Request), "channel error: failed to send request: x");
    assert_eq!(text(GeyserStage::Subscribe), "geyser error: subscribe failed: x");
    assert_eq!(text(GeyserStage::Message), "geyser error: stream message failed: x");
}
