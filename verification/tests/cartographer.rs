use slipstream::addr::SocketAddr;
use slipstream::blocklist::{Blocklist, BlocklistManager, FileRead};
use slipstream::cartographer::{check_schedule, Cartographer, ClusterNode, EpochInfo, LeaderSlots};
use slipstream::error::SlipstreamError;
use slipstream::pubkey::Pubkey;

const A: &str = "So11111111111111111111111111111111111111112";
const B: &str = "11111111111111111111111111111112";
const C: &str = "11111111111111111111111111111113";

fn at(port: u16) -> SocketAddr {
    SocketAddr::V4 { ip4: 0x7f000001, port }
}

fn node(pubkey: &str, tpu_quic: Option<SocketAddr>) -> ClusterNode {
    ClusterNode { pubkey: pubkey.to_string(), tpu_quic }
}

fn leads(pubkey: &str, slots: Vec<usize>) -> LeaderSlots {
    LeaderSlots { pubkey: pubkey.to_string(), slots }
}

fn epoch(epoch: u64, absolute_slot: u64, slot_index: u64) -> EpochInfo {
    EpochInfo { epoch, absolute_slot, slot_index }
}

fn blocking(keys: &[&str]) -> Blocklist {
    let mut list = Blocklist::new();
    for k in keys {
        list.insert(Pubkey::from_text(k).unwrap());
    }
    list
}

fn charted() -> Cartographer {
    let mut c = Cartographer::new("http://localhost:8899".to_string());
    c.refresh_topology(Ok(vec![
        node(A, Some(at(1))),
        node(B, Some(at(2))),
        node("not a key", Some(at(9))),
        node(C, None),
    ]))
    .unwrap();
    let schedule = vec![
        leads(A, vec![0, 1, 6]),
        leads(B, vec![2, 3, 7]),
        leads(C, vec![4]),
        leads("?", vec![5]),
    ];
    c.update_schedule(Ok(epoch(3, 1002, 2)), Ok(Some(schedule))).unwrap();
    c
}

fn reason<T: std::fmt::Debug>(r: Result<T, SlipstreamError>) -> String {
    match r.unwrap_err() {
        SlipstreamError::ConfigValidation(s) => s,
        e => panic!("{:?}", e),
    }
}

#[test]
fn slot_clock_basics() {
    let mut cartographer = Cartographer::new("http://localhost:8899".to_string());
    assert_eq!(cartographer.get_known_slot(), 0);
    cartographer.update_slot(42);
    assert_eq!(cartographer.get_known_slot(), 42);
}

#[test]
fn targets_follow_schedule_and_map() {
    let c = charted();
    let nobody = Blocklist::new();
    assert_eq!(c.rpc_url(), "http://localhost:8899");
    assert_eq!(c.get_known_slot(), 1002);
    assert_eq!(c.validator_count(), 2);
    assert_eq!(Cartographer::new(String::new()).validator_count(), 0);
    assert_eq!(c.get_target(1000, &nobody), Some(at(1)));
    assert_eq!(c.get_target(1002, &nobody), Some(at(2)));
    assert_eq!(c.get_target(1004, &nobody), None);
    assert_eq!(c.get_target(1005, &nobody), None);
    assert_eq!(c.get_target(999, &nobody), None);
    assert_eq!(c.get_target(1008, &nobody), None);
}

#[test]
fn blocked_validators_are_skipped() {
    let c = charted();
    let b = blocking(&[B]);
    assert_eq!(c.get_target(1002, &b), None);
    assert_eq!(c.get_target(1001, &b), Some(at(1)));
    assert_eq!(c.get_upcoming_leaders(1000, 7, &b), vec![at(1)]);
    assert!(c.get_upcoming_leaders(1000, 7, &blocking(&[A, B])).is_empty());
}

#[test]
fn listed_validator_is_no_target() {
    let c = charted();
    let mut shield = BlocklistManager::new();
    assert_eq!(c.get_target(1000, shield.get_handle()), Some(at(1)));
    shield.load_local(FileRead::Content(format!("{}\n", A)));
    assert_eq!(c.get_target(1000, shield.get_handle()), None);
    assert_eq!(c.get_target(1002, shield.get_handle()), Some(at(2)));
}

#[test]
fn upcoming_leaders_come_once_in_order() {
    let c = charted();
    let nobody = Blocklist::new();
    assert_eq!(c.get_upcoming_leaders(1000, 0, &nobody), vec![]);
    assert_eq!(c.get_upcoming_leaders(1000, 1, &nobody), vec![at(1)]);
    assert_eq!(c.get_upcoming_leaders(1000, 7, &nobody), vec![at(1), at(2)]);
    assert_eq!(c.get_upcoming_leaders(1001, 7, &nobody), vec![at(2), at(1)]);
    assert_eq!(c.get_upcoming_leaders(u64::MAX, 0, &nobody), vec![]);
}

#[test]
fn later_announcement_holds() {
    let mut c = charted();
    let v6 = SocketAddr::V6 { ip6: 1, port: 7, flowinfo: 0, scope_id: 2 };
    c.refresh_topology(Ok(vec![node(A, Some(at(1))), node(A, Some(v6)), node(A, None)])).unwrap();
    assert_eq!(c.validator_count(), 1);
    assert_eq!(c.get_target(1000, &Blocklist::new()), Some(v6));
    assert_eq!(c.get_target(1002, &Blocklist::new()), None);
}

#[test]
fn topology_failure_changes_nothing() {
    let mut c = charted();
    let e = reason(c.refresh_topology(Err("down".to_string())));
    assert_eq!(e, "rpc get_cluster_nodes failed: down");
    assert_eq!(c.get_target(1000, &Blocklist::new()), Some(at(1)));
}

#[test]
fn known_epoch_only_moves_the_slot() {
    let mut c = charted();
    assert!(!c.needs_schedule(3));
    assert!(c.needs_schedule(4));
    c.update_schedule(Ok(epoch(3, 1005, 5)), Err("unused".to_string())).unwrap();
    assert_eq!(c.get_known_slot(), 1005);
    assert_eq!(c.get_target(1000, &Blocklist::new()), Some(at(1)));
}

#[test]
fn new_epoch_replaces_the_schedule() {
    let mut c = charted();
    c.update_schedule(Ok(epoch(4, 2000, 0)), Ok(Some(vec![leads(B, vec![1])]))).unwrap();
    assert_eq!(c.get_known_slot(), 2000);
    assert_eq!(c.get_target(2001, &Blocklist::new()), Some(at(2)));
    assert_eq!(c.get_target(1000, &Blocklist::new()), None);
    assert!(!c.needs_schedule(4));
}

#[test]
fn epoch_zero_is_never_known() {
    let mut c = Cartographer::new(String::new());
    assert!(c.needs_schedule(0));
    c.update_schedule(Ok(epoch(0, 5, 5)), Ok(Some(vec![]))).unwrap();
    assert!(c.needs_schedule(0));
}

#[test]
fn schedule_failures_change_nothing() {
    let mut c = charted();
    let e = reason(c.update_schedule(Err("x".to_string()), Ok(None)));
    assert_eq!(e, "rpc get_epoch_info failed: x");
    let e = reason(c.update_schedule(Ok(epoch(4, 2000, 0)), Err("y".to_string())));
    assert_eq!(e, "rpc get_leader_schedule failed: y");
    let e = reason(c.update_schedule(Ok(epoch(4, 2000, 0)), Ok(None)));
    assert_eq!(e, "leader schedule unavailable");
    assert_eq!(c.get_known_slot(), 1002);
    assert!(!c.needs_schedule(3));
    assert_eq!(c.get_target(1000, &Blocklist::new()), Some(at(1)));
}

#[test]
fn schedule_does_not_depend_on_order() {
    let mut c = charted();
    let turned = vec![
        leads("?", vec![5]),
        leads(C, vec![4]),
        leads(B, vec![7, 2, 3]),
        leads(A, vec![6, 0, 1]),
    ];
    let before: Vec<_> = (995..1010).map(|s| c.get_target(s, &Blocklist::new())).collect();
    c.update_schedule(Ok(epoch(4, 1002, 2)), Ok(Some(turned))).unwrap();
    let after: Vec<_> = (995..1010).map(|s| c.get_target(s, &Blocklist::new())).collect();
    assert_eq!(before, after);
}

#[test]
fn schedule_must_be_slot_numbers() {
    assert!(check_schedule(&epoch(1, 5, 5), &vec![leads(A, vec![usize::MAX])]));
    assert!(!check_schedule(&epoch(1, 5, 6), &vec![]));
    assert!(!check_schedule(&epoch(1, 6, 5), &vec![leads(B, vec![0]), leads(A, vec![1, usize::MAX])]));
    assert!(check_schedule(&epoch(1, 6, 5), &vec![leads("?", vec![usize::MAX])]));
}

#[test]
fn rpc_slot_is_taken_over() {
    let mut c = charted();
    assert_eq!(c.fetch_rpc_slot(Ok(7)).unwrap(), 7);
    assert_eq!(c.get_known_slot(), 7);
    assert_eq!(reason(c.fetch_rpc_slot(Err("late".to_string()))), "rpc get_slot failed: late");
    assert_eq!(c.get_known_slot(), 7);
}
