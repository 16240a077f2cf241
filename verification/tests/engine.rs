use slipstream::addr::SocketAddr;
use slipstream::engine::{connect_error, ConnectStage, QuicEngine, SendStep};

fn v4(ip4: u32, port: u16) -> SocketAddr {
    SocketAddr::V4 { ip4, port }
}

#[test]
fn open_connection_is_used_again() {
    let mut engine = QuicEngine::new();
    let a = v4(1, 2);
    assert_eq!(engine.cached(a), None);
    assert_eq!(engine.get_connection(a, true), None);
    engine.connected(a, 77);
    assert_eq!(engine.cached(a), Some(77));
    assert_eq!(engine.get_connection(a, true), Some(77));
    assert_eq!(engine.get_connection_handle(a, true), Some(77));
    assert_eq!(engine.cached(a), Some(77));
}

#[test]
fn closed_connection_is_dropped() {
    let mut engine = QuicEngine::new();
    let a = v4(1, 2);
    let b = v4(1, 3);
    engine.connected(a, 5);
    engine.connected(b, 6);
    assert_eq!(engine.get_connection(a, false), None);
    assert_eq!(engine.cached(a), None);
    assert_eq!(engine.get_connection(b, true), Some(6));
    engine.connected(a, 7);
    engine.connected(a, 8);
    assert_eq!(engine.get_connection(a, true), Some(8));
}

#[test]
fn every_part_of_an_address_counts() {
    let mut engine = QuicEngine::new();
    let six = |ip6: u128, port, flowinfo, scope_id| SocketAddr::V6 { ip6, port, flowinfo, scope_id };
    let addrs = [
        v4(1, 1), v4(1, 2), v4(2, 1), six(1, 1, 0, 0), six(1, 2, 0, 0), six(1, 1, 3, 0), six(1, 1, 0, 4),
        six(u128::MAX, 1, 0, 0),
    ];
    for (i, a) in addrs.iter().enumerate() {
        assert_eq!(engine.cached(*a), None);
        engine.connected(*a, i as u64);
    }
    for (i, a) in addrs.iter().enumerate() {
        assert_eq!(engine.cached(*a), Some(i as u64));
    }
}

#[test]
fn sending_goes_step_by_step() {
    let s = QuicEngine::send_transaction(SendStep::Open, Ok(())).unwrap();
    assert_eq!(s, SendStep::Write);
    let s = QuicEngine::send_transaction(s, Ok(())).unwrap();
    assert_eq!(s, SendStep::Finish);
    assert_eq!(QuicEngine::send_transaction(s, Ok(())).unwrap(), SendStep::Sent);
}

#[test]
fn failed_step_ends_the_sending() {
    let fail = |s| QuicEngine::send_transaction(s, Err("x".to_string())).unwrap_err().message();
    assert_eq!(fail(SendStep::Open), "connection error: open stream failed: x");
    assert_eq!(fail(SendStep::Write), "write error: x");
    assert_eq!(fail(SendStep::Finish), "stream closed: x");
}

#[test]
fn failed_connection_is_told_by_its_stage() {
    let text = |s| connect_error(s, "x").message();
    assert_eq!(text(ConnectStage::Bind), "connection error: endpoint bind failed: x");
    assert_eq!(text(ConnectStage::Begin), "connection error: connect failed: x");
    assert_eq!(text(ConnectStage::Handshake), "transport error: x");
}
