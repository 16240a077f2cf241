use slipstream::addr::SocketAddr;
use slipstream::blocklist::Blocklist;
use slipstream::cartographer::{Cartographer, ClusterNode, EpochInfo, LeaderSlots};
use slipstream::monitor::{monitor_line, scout, Monitor, SlotReport};
use slipstream::pubkey::Pubkey;

const LEADER: &str = "So11111111111111111111111111111111111111112";

fn addr() -> SocketAddr {
    SocketAddr::V4 { ip4: 1, port: 8 }
}

fn charted() -> Cartographer {
    let mut c = Cartographer::new(String::new());
    let node = ClusterNode { pubkey: LEADER.to_string(), tpu_quic: Some(addr()) };
    c.refresh_topology(Ok(vec![node])).unwrap();
    let info = EpochInfo { epoch: 1, absolute_slot: 10, slot_index: 0 };
    let slots = LeaderSlots { pubkey: LEADER.to_string(), slots: vec![0, 3] };
    c.update_schedule(Ok(info), Ok(Some(vec![slots]))).unwrap();
    c
}

#[test]
fn line_names_slot_and_leader() {
    assert_eq!(monitor_line(7, Some("1.2.3.4:5".to_string())), "Slot: 7 | Leader IP: 1.2.3.4:5");
    assert_eq!(monitor_line(80, None), "Slot: 80 | Leader IP: UNKNOWN");
}

#[test]
fn every_tenth_tick_reports_the_counters() {
    let mut m = Monitor::new();
    let c = charted();
    let with: Vec<usize> =
        (1..=30).filter(|_| m.monitor_loop(&c, &Blocklist::new()).with_metrics).collect();
    assert_eq!(with, vec![10, 20, 30]);
}

#[test]
fn current_slot_is_printed_once_known() {
    let mut m = Monitor::new();
    let nobody = Blocklist::new();
    assert_eq!(m.monitor_loop(&Cartographer::new(String::new()), &nobody).printed, None);
    let mut c = charted();
    let r = m.monitor_loop(&c, &nobody);
    assert_eq!(r.printed, Some(SlotReport { slot: 10, leader: Some(addr()) }));
    c.update_slot(11);
    let r = m.monitor_loop(&c, &nobody);
    assert_eq!(r.printed, Some(SlotReport { slot: 11, leader: None }));
}

#[test]
fn scout_looks_ahead_of_a_known_slot() {
    let mut c = charted();
    let nobody = Blocklist::new();
    assert_eq!(scout(&c, 3, &nobody), vec![addr()]);
    assert_eq!(scout(&c, 2, &nobody), vec![]);
    let mut b = Blocklist::new();
    b.insert(Pubkey::from_text(LEADER).unwrap());
    assert_eq!(scout(&c, 3, &b), vec![]);
    c.update_slot(0);
    assert_eq!(scout(&c, u64::MAX, &nobody), vec![]);
}
