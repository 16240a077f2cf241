use slipstream::addr::SocketAddr;
use slipstream::blocklist::Blocklist;
use slipstream::cartographer::{Cartographer, ClusterNode, EpochInfo, LeaderSlots};
use slipstream::compare::{CompareAction, CompareEvent, ComparePhase, CompareRun};
use slipstream::config::{Config, ConfigEnv};
use slipstream::metrics::Metrics;
use slipstream::pubkey::Pubkey;
use slipstream::transaction::{build_signed_transfer_tx, wallet};

const LEADER: &str = "So11111111111111111111111111111111111111112";
const TO: Pubkey = Pubkey { bytes: [2; 32] };
const SECRET: [u8; 32] = [5; 32];

fn addr() -> SocketAddr {
    SocketAddr::V4 { ip4: 1, port: 8 }
}

struct World {
    run: CompareRun,
    map: Cartographer,
    config: Config,
    metrics: Metrics,
}

impl World {
    fn new(iterations: u64) -> World {
        let mut map = Cartographer::new(String::new());
        let node = ClusterNode { pubkey: LEADER.to_string(), tpu_quic: Some(addr()) };
        map.refresh_topology(Ok(vec![node])).unwrap();
        let info = EpochInfo { epoch: 1, absolute_slot: 10, slot_index: 0 };
        let slots = LeaderSlots { pubkey: LEADER.to_string(), slots: vec![0] };
        map.update_schedule(Ok(info), Ok(Some(vec![slots]))).unwrap();
        let config = Config {
            rpc_url: String::new(),
            geyser_url: None,
            rpc_poll_interval_ms: 50,
            scout_interval_ms: 50,
            scout_lookahead_slots: 1,
            monitor_interval_ms: 50,
            default_compute_unit_limit: 77,
            default_priority_fee: 1,
        };
        World { run: CompareRun::new(iterations, TO), map, config, metrics: Metrics::default() }
    }

    fn tell(&mut self, event: CompareEvent) -> Result<CompareAction, String> {
        let nobody = Blocklist::new();
        self.run.compare_latency(event, &self.map, &nobody, &SECRET, 9, &self.config, &mut self.metrics)
    }

    fn begin(&mut self, found: bool) {
        assert!(matches!(self.tell(CompareEvent::Balance(Ok(1))), Ok(CompareAction::AskAccount)));
        assert!(matches!(self.tell(CompareEvent::Account(found)), Ok(CompareAction::Iterate)));
    }

    fn direct(&mut self, hash: u8) -> Vec<u8> {
        assert!(matches!(self.tell(CompareEvent::Iterate), Ok(CompareAction::AskBlock)));
        match self.tell(CompareEvent::Block(Ok([hash; 32]))).unwrap() {
            CompareAction::SendDirect { addr: to, transaction } => {
                assert_eq!(to, addr());
                transaction.wire
            }
            a => panic!("{:?}", a),
        }
    }

    fn rpc(&mut self, hash: u8) -> Vec<u8> {
        match self.tell(CompareEvent::Block(Ok([hash; 32]))).unwrap() {
            CompareAction::SendRpc { transaction } => transaction.wire,
            a => panic!("{:?}", a),
        }
    }

    fn counts(&self) -> (u64, u64, u64, u64) {
        let s = self.metrics.snapshot();
        (s.tx_attempted, s.tx_sent, s.tx_failed, s.leader_lookup_failed)
    }
}

#[test]
fn comparison_alternates_between_both_ways() {
    let mut w = World::new(2);
    w.begin(true);
    for i in 0..2u8 {
        let wire = w.direct(i);
        assert_eq!(wire, build_signed_transfer_tx(&SECRET, &TO, 9, 77, &[i; 32]).wire);
        assert_eq!(w.run.phase(), ComparePhase::DirectSend);
        let sent = w.tell(CompareEvent::Sent(Some(100 + i as u64)));
        assert!(matches!(sent, Ok(CompareAction::AskBlock)));
        let wire = w.rpc(i + 10);
        assert_eq!(wire, build_signed_transfer_tx(&SECRET, &TO, 9, 77, &[i + 10; 32]).wire);
        let sent = w.tell(CompareEvent::Sent(if i == 0 { Some(200) } else { None }));
        assert!(matches!(sent, Ok(CompareAction::Iterate)));
        assert_eq!(w.run.iteration(), i as u64 + 1);
    }
    assert!(matches!(w.tell(CompareEvent::Iterate), Ok(CompareAction::Report)));
    assert_eq!(w.run.phase(), ComparePhase::Over);
    assert_eq!(w.run.direct_ns(), &vec![100, 101]);
    assert_eq!(w.run.rpc_ns(), &vec![200]);
    assert_eq!(w.counts(), (4, 3, 1, 0));
}

#[test]
fn sender_without_lamports_is_told() {
    let mut w = World::new(2);
    let e = w.tell(CompareEvent::Balance(Ok(0))).unwrap_err();
    let sender = wallet(&SECRET).to_text();
    assert_eq!(
        e,
        format!("Sender wallet {} has 0 lamports on current cluster. Fund it first (e.g. devnet airdrop).", sender)
    );
    assert_eq!(w.run.phase(), ComparePhase::Over);
}

#[test]
fn unanswered_questions_end_the_comparison() {
    let mut w = World::new(2);
    assert_eq!(w.tell(CompareEvent::Balance(Err("b".to_string()))).unwrap_err(), "b");
    assert_eq!(w.run.phase(), ComparePhase::Over);
    let mut w = World::new(2);
    w.begin(true);
    w.direct(1);
    w.tell(CompareEvent::Sent(None)).unwrap();
    assert_eq!(w.tell(CompareEvent::Block(Err("h".to_string()))).unwrap_err(), "h");
    assert_eq!(w.run.phase(), ComparePhase::Over);
    assert_eq!(w.counts(), (1, 0, 1, 0));
    let mut w = World::new(2);
    w.begin(true);
    w.tell(CompareEvent::Iterate).unwrap();
    assert_eq!(w.tell(CompareEvent::Block(Err("h".to_string()))).unwrap_err(), "h");
    assert_eq!(w.counts(), (0, 0, 0, 0));
}

#[test]
fn recipient_without_account_is_replaced_by_the_sender() {
    let mut w = World::new(1);
    w.begin(false);
    let me = wallet(&SECRET);
    assert_eq!(w.direct(4), build_signed_transfer_tx(&SECRET, &me, 9, 77, &[4; 32]).wire);
}

#[test]
fn iteration_without_leader_is_skipped() {
    let mut w = World::new(3);
    w.begin(true);
    w.map.update_slot(11);
    assert!(matches!(w.tell(CompareEvent::Iterate), Ok(CompareAction::Iterate)));
    assert!(matches!(w.tell(CompareEvent::Iterate), Ok(CompareAction::Iterate)));
    assert_eq!(w.counts(), (0, 0, 0, 2));
    w.map.update_slot(10);
    w.direct(1);
    w.tell(CompareEvent::Sent(Some(5))).unwrap();
    w.rpc(2);
    w.tell(CompareEvent::Sent(Some(6))).unwrap();
    assert!(matches!(w.tell(CompareEvent::Iterate), Ok(CompareAction::Report)));
    let (attempted, sent, failed, leaderless) = w.counts();
    assert_eq!((attempted, sent, failed, leaderless), (2, 2, 0, 2));
    assert_eq!(sent + failed, 2 * (3 - leaderless));
}

#[test]
fn no_iterations_no_transactions() {
    let mut w = World::new(0);
    w.begin(true);
    assert!(matches!(w.tell(CompareEvent::Iterate), Ok(CompareAction::Report)));
    assert_eq!(w.counts(), (0, 0, 0, 0));
}

#[test]
fn comparison_takes_five_events_per_iteration() {
    let mut w = World::new(4);
    let mut events = 0;
    while w.run.phase() != ComparePhase::Over {
        let event = match w.run.phase() {
            ComparePhase::Balance => CompareEvent::Balance(Ok(1)),
            ComparePhase::Account => CompareEvent::Account(true),
            ComparePhase::Iterate => CompareEvent::Iterate,
            ComparePhase::DirectBlock { .. } | ComparePhase::RpcBlock => CompareEvent::Block(Ok([0; 32])),
            _ => CompareEvent::Sent(None),
        };
        w.tell(event).unwrap();
        events += 1;
    }
    assert_eq!(events, 23);
    assert_eq!(w.counts(), (8, 0, 8, 0));
}

#[test]
fn defaults_can_be_compared_with() {
    let env = ConfigEnv {
        solana_rpc_url: None,
        geyser_url: None,
        rpc_poll_interval_ms: None,
        scout_interval_ms: None,
        scout_lookahead_slots: None,
        monitor_interval_ms: None,
        default_compute_unit_limit: None,
        default_priority_fee: None,
    };
    let mut w = World::new(1);
    w.config = Config::from_env(env).unwrap();
    w.begin(true);
    assert_eq!(w.direct(3), build_signed_transfer_tx(&SECRET, &TO, 9, 200_000, &[3; 32]).wire);
}
