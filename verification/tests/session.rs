use slipstream::addr::SocketAddr;
use slipstream::blocklist::Blocklist;
use slipstream::cartographer::{Cartographer, ClusterNode, EpochInfo, LeaderSlots};
use slipstream::config::{Config, ConfigEnv};
use slipstream::error::SlipstreamError;
use slipstream::metrics::Metrics;
use slipstream::pubkey::Pubkey;
use slipstream::session::{fire_ended, fire_transaction, spam_transactions, FireAction, SpamRun};
use slipstream::transaction::{build_signed_transfer_tx, SignedTransaction};

const LEADER: &str = "So11111111111111111111111111111111111111112";
const TO: Pubkey = Pubkey { bytes: [2; 32] };
const SECRET: [u8; 32] = [5; 32];

fn addr() -> SocketAddr {
    SocketAddr::V4 { ip4: 1, port: 8 }
}

fn charted() -> Cartographer {
    let mut c = Cartographer::new(String::new());
    let leader = LEADER.to_string();
    c.refresh_topology(Ok(vec![ClusterNode { pubkey: leader, tpu_quic: Some(addr()) }])).unwrap();
    let info = EpochInfo { epoch: 1, absolute_slot: 10, slot_index: 0 };
    let slots = LeaderSlots { pubkey: LEADER.to_string(), slots: vec![0] };
    c.update_schedule(Ok(info), Ok(Some(vec![slots]))).unwrap();
    c
}

fn config() -> Config {
    Config::from_env(ConfigEnv {
        solana_rpc_url: None,
        geyser_url: None,
        rpc_poll_interval_ms: None,
        scout_interval_ms: None,
        scout_lookahead_slots: None,
        monitor_interval_ms: None,
        default_compute_unit_limit: None,
        default_priority_fee: None,
    })
    .unwrap()
}

fn expected() -> SignedTransaction {
    build_signed_transfer_tx(&SECRET, &TO, 9, 200_000, &[7; 32])
}

fn fire(c: &Cartographer, b: &Blocklist, m: &mut Metrics, hash: Result<[u8; 32], String>) -> Result<FireAction, String> {
    fire_transaction(c, b, &SECRET, &TO, 9, &config(), hash, m)
}

#[test]
fn fire_goes_to_the_leader() {
    let mut m = Metrics::default();
    let (to, t) = match fire(&charted(), &Blocklist::new(), &mut m, Ok([7; 32])).unwrap() {
        FireAction::Send { addr, transaction } => (addr, transaction),
        a => panic!("{:?}", a),
    };
    assert_eq!(to, addr());
    assert_eq!(t.wire, expected().wire);
    let s = m.snapshot();
    assert_eq!((s.tx_attempted, s.tx_sent, s.tx_failed, s.leader_lookup_failed), (1, 0, 0, 0));
    assert_eq!(fire_ended(Ok(()), t, &mut m).unwrap(), expected().signatures[0]);
    let s = m.snapshot();
    assert_eq!((s.tx_attempted, s.tx_sent, s.tx_failed, s.leader_lookup_failed), (1, 1, 0, 0));
}

#[test]
fn fire_that_fails_is_counted_as_failed() {
    let mut m = Metrics::default();
    let e = fire_ended(Err(SlipstreamError::Write("x".to_string())), expected(), &mut m).unwrap_err();
    assert_eq!(e, "write error: x");
    assert_eq!((m.snapshot().tx_sent, m.snapshot().tx_failed), (0, 1));
}

#[test]
fn fire_without_leader_is_counted_so() {
    let mut m = Metrics::default();
    let mut b = Blocklist::new();
    b.insert(Pubkey::from_text(LEADER).unwrap());
    match fire(&charted(), &b, &mut m, Ok([7; 32])).unwrap() {
        FireAction::NoLeader { slot } => assert_eq!(slot, 10),
        a => panic!("{:?}", a),
    }
    let s = m.snapshot();
    assert_eq!((s.tx_attempted, s.tx_sent, s.tx_failed, s.leader_lookup_failed), (1, 0, 0, 1));
}

#[test]
fn fire_without_block_attempts_nothing() {
    let mut m = Metrics::default();
    let r = fire(&charted(), &Blocklist::new(), &mut m, Err("no block".to_string()));
    assert_eq!(r.unwrap_err(), "no block");
    assert_eq!(m.snapshot().tx_attempted, 0);
}

#[test]
fn transaction_without_signature_is_told() {
    let mut m = Metrics::default();
    let t = SignedTransaction { signatures: vec![], wire: vec![] };
    assert_eq!(fire_ended(Ok(()), t, &mut m).unwrap_err(), "Transaction has no signatures");
    assert_eq!(m.snapshot().tx_sent, 1);
}

#[test]
fn spam_needs_a_leader_and_a_block() {
    let c = charted();
    let cfg = config();
    let nobody = Blocklist::new();
    let plan = spam_transactions(&c, &nobody, &SECRET, &TO, 9, &cfg, Ok([7; 32])).unwrap();
    assert_eq!(plan.addr, addr());
    assert_eq!(plan.transaction.wire, expected().wire);
    let e = spam_transactions(&c, &nobody, &SECRET, &TO, 9, &cfg, Err("b".to_string())).unwrap_err();
    assert_eq!(e, "b");
    let empty = Cartographer::new(String::new());
    let e = spam_transactions(&empty, &nobody, &SECRET, &TO, 9, &cfg, Ok([7; 32])).unwrap_err();
    assert_eq!(e, "No leader found");
}

#[test]
fn rounds_are_all_accounted_for() {
    let mut m = Metrics::default();
    let mut run = SpamRun::new(5);
    let outcomes = [true, false, true, true, false];
    let mut numbers = vec![];
    while let Some(i) = run.begin_round(&mut m) {
        numbers.push(i);
        run.end_round(outcomes[i as usize], &mut m);
    }
    assert_eq!(numbers, vec![0, 1, 2, 3, 4]);
    assert_eq!((run.success_count(), run.fail_count()), (3, 2));
    let s = m.snapshot();
    assert_eq!((s.tx_attempted, s.tx_sent, s.tx_failed), (5, 3, 2));
    assert_eq!(run.begin_round(&mut m), None);
    assert_eq!(m.snapshot().tx_attempted, 5);
    assert_eq!(SpamRun::new(0).begin_round(&mut m), None);
}
