//! Comparing latencies: transactions are sent by turns straight to the leader and through RPC,
//! and the time that each takes is noted.

use crate::addr::SocketAddr;
use crate::blocklist::Blocklist;
use crate::cartographer::{target, Cartographer};
use crate::config::{Config, ConfigView};
use crate::metrics::{concatenation, Metrics, MetricsSnapshot};
use crate::pubkey::{pubkey_text, Pubkey};
use crate::session::{counted_on, lemma_counted_on, settled, transfer};
use crate::text::joined;
use crate::transaction::{build_signed_transfer_tx, public_key, wallet, SignedTransaction};
use vstd::prelude::*;

verus! {

/// Where a comparison is: what it waits for.
#[derive(Debug, Clone, Copy, PartialEq, Eq, Structural)]
pub enum ComparePhase {
    /// The balance of the sender.
    Balance,
    /// Whether the recipient has an account.
    Account,
    /// The next iteration.
    Iterate,
    /// The block to put the transaction for the leader on.
    DirectBlock { addr: SocketAddr },
    /// The end of the sending to the leader.
    DirectSend,
    /// The block to put the transaction for RPC on.
    RpcBlock,
    /// The end of the sending through RPC.
    RpcSend,
    /// Nothing: the comparison is over.
    Over,
}

/// What a comparison is told.
#[derive(Debug)]
pub enum CompareEvent {
    /// The balance of the sender in lamports, or why it could not be had.
    Balance(Result<u64, String>),
    /// Whether the recipient has an account.
    Account(bool),
    /// It is time for the next iteration.
    Iterate,
    /// The latest block, or why it could not be had.
    Block(Result<[u8; 32], String>),
    /// How many nanoseconds the sending took, if it succeeded.
    Sent(Option<u64>),
}

/// What a comparison asks for.
#[derive(Debug)]
pub enum CompareAction {
    /// Ask for the balance of the sender.
    AskBalance,
    /// Ask for the account of the recipient.
    AskAccount,
    /// Go on with the next iteration.
    Iterate,
    /// Ask for the latest block.
    AskBlock,
    /// Send the transaction to the leader at `addr`.
    SendDirect { addr: SocketAddr, transaction: SignedTransaction },
    /// Send the transaction through RPC.
    SendRpc { transaction: SignedTransaction },
    /// Report the latencies.
    Report,
}

/// Whether a comparison that is at `phase` waits for `event`.
pub open spec fn waits_for(phase: ComparePhase, event: CompareEvent) -> bool {
    match phase {
        ComparePhase::Balance => event is Balance,
        ComparePhase::Account => event is Account,
        ComparePhase::Iterate => event is Iterate,
        ComparePhase::DirectBlock { addr: _ } => event is Block,
        ComparePhase::DirectSend => event is Sent,
        ComparePhase::RpcBlock => event is Block,
        ComparePhase::RpcSend => event is Sent,
        ComparePhase::Over => false,
    }
}

/// A comparison.
#[derive(Debug)]
pub struct CompareRun {
    iterations: u64,
    iteration: u64,
    recipient: Pubkey,
    phase: ComparePhase,
    direct_ns: Vec<u64>,
    rpc_ns: Vec<u64>,
}

/// How far a [`CompareRun`] is.
#[verifier::ext_equal]
pub struct CompareView {
    /// How many iterations there are to be.
    pub iterations: u64,
    /// How many iterations have ended.
    pub iteration: u64,
    /// Whom the lamports go to.
    pub recipient: Seq<u8>,
    /// What the comparison waits for.
    pub phase: ComparePhase,
    /// The latencies of the transactions that were sent to the leader, in nanoseconds.
    pub direct_ns: Seq<u64>,
    /// The latencies of the transactions that were sent through RPC, in nanoseconds.
    pub rpc_ns: Seq<u64>,
}

impl View for CompareRun {
    type V = CompareView;

    closed spec fn view(&self) -> CompareView {
        CompareView {
            iterations: self.iterations,
            iteration: self.iteration,
            recipient: self.recipient@,
            phase: self.phase,
            direct_ns: self.direct_ns@,
            rpc_ns: self.rpc_ns@,
        }
    }
}

/// A comparison of `iterations` iterations, before anything was asked for.
pub open spec fn compare_start(iterations: u64, recipient: Seq<u8>) -> CompareView {
    CompareView {
        iterations,
        iteration: 0,
        recipient,
        phase: ComparePhase::Balance,
        direct_ns: Seq::empty(),
        rpc_ns: Seq::empty(),
    }
}

/// The comparison `c`, waiting for what `phase` says.
pub open spec fn at(c: CompareView, phase: ComparePhase) -> CompareView {
    CompareView { phase, ..c }
}

/// The comparison `c` after an iteration.
pub open spec fn iterated(c: CompareView) -> CompareView {
    CompareView { iteration: (c.iteration + 1) as u64, phase: ComparePhase::Iterate, ..c }
}

/// What is wrong with a sender whose balance is `balance`, if anything is.
pub open spec fn balance_fault(sender: Seq<u8>, balance: u64) -> Option<Seq<char>> {
    if balance == 0 {
        Some(
            "Sender wallet "@ + pubkey_text(sender)
                + " has 0 lamports on current cluster. Fund it first (e.g. devnet airdrop)."@,
        )
    } else {
        None
    }
}

/// `latencies` with that of a transaction, if it was sent.
pub open spec fn noted(latencies: Seq<u64>, sent: Option<u64>) -> Seq<u64> {
    match sent {
        Some(ns) => latencies.push(ns),
        None => latencies,
    }
}

/// The comparison `c` after `event`, where `sender` is the sender and `leader` the target of the
/// current slot.
///
/// A sender without lamports ends the comparison, and so does a question that was not answered.
/// A recipient without an account is replaced by the sender. An iteration sends one transaction
/// to the leader and one through RPC; where there is no leader it sends none.
pub open spec fn compare_after(
    c: CompareView,
    event: CompareEvent,
    sender: Seq<u8>,
    leader: Option<SocketAddr>,
) -> CompareView {
    match (c.phase, event) {
        (ComparePhase::Balance, CompareEvent::Balance(Ok(balance))) => if balance == 0 {
            at(c, ComparePhase::Over)
        } else {
            at(c, ComparePhase::Account)
        },
        (ComparePhase::Account, CompareEvent::Account(found)) => CompareView {
            recipient: if found {
                c.recipient
            } else {
                sender
            },
            phase: ComparePhase::Iterate,
            ..c
        },
        (ComparePhase::Iterate, CompareEvent::Iterate) => if c.iteration == c.iterations {
            at(c, ComparePhase::Over)
        } else {
            match leader {
                Some(addr) => at(c, ComparePhase::DirectBlock { addr }),
                None => iterated(c),
            }
        },
        (ComparePhase::DirectBlock { addr: _ }, CompareEvent::Block(Ok(_))) => at(
            c,
            ComparePhase::DirectSend,
        ),
        (ComparePhase::DirectSend, CompareEvent::Sent(sent)) => CompareView {
            direct_ns: noted(c.direct_ns, sent),
            phase: ComparePhase::RpcBlock,
            ..c
        },
        (ComparePhase::RpcBlock, CompareEvent::Block(Ok(_))) => at(c, ComparePhase::RpcSend),
        (ComparePhase::RpcSend, CompareEvent::Sent(sent)) => CompareView {
            rpc_ns: noted(c.rpc_ns, sent),
            ..iterated(c)
        },
        _ => at(c, ComparePhase::Over),
    }
}

/// The counters after the comparison `c` was told `event`.
pub open spec fn compare_counts(
    c: CompareView,
    event: CompareEvent,
    leader: Option<SocketAddr>,
    before: MetricsSnapshot,
) -> MetricsSnapshot {
    match (c.phase, event) {
        (ComparePhase::Iterate, CompareEvent::Iterate) => if c.iteration < c.iterations
            && leader is None {
            before.without_leader()
        } else {
            before
        },
        (ComparePhase::DirectBlock { addr: _ }, CompareEvent::Block(Ok(_))) => before.attempted(),
        (ComparePhase::RpcBlock, CompareEvent::Block(Ok(_))) => before.attempted(),
        (ComparePhase::DirectSend, CompareEvent::Sent(sent)) => settled(before, sent is Some),
        (ComparePhase::RpcSend, CompareEvent::Sent(sent)) => settled(before, sent is Some),
        _ => before,
    }
}

/// Why a comparison ends without a report when it is told `event`, if it does.
pub open spec fn compare_fault(event: CompareEvent, sender: Seq<u8>) -> Option<Seq<char>> {
    match event {
        CompareEvent::Balance(Ok(balance)) => balance_fault(sender, balance),
        CompareEvent::Balance(Err(reason)) => Some(reason@),
        CompareEvent::Block(Err(reason)) => Some(reason@),
        _ => None,
    }
}

/// Whether `action` is what the comparison `after` asks for, having been told `event` at
/// `phase`. The transactions are transfers on top of the block of the event.
pub open spec fn is_compare_action(
    action: CompareAction,
    phase: ComparePhase,
    event: CompareEvent,
    after: CompareView,
    secret: Seq<u8>,
    priority_fee: u64,
    config: ConfigView,
) -> bool {
    match after.phase {
        ComparePhase::Balance => action is AskBalance,
        ComparePhase::Account => action is AskAccount,
        ComparePhase::Iterate => action is Iterate,
        ComparePhase::DirectBlock { addr: _ } => action is AskBlock,
        ComparePhase::RpcBlock => action is AskBlock,
        ComparePhase::DirectSend => {
            &&& action matches CompareAction::SendDirect { addr, transaction }
            &&& phase == (ComparePhase::DirectBlock { addr })
            &&& event matches CompareEvent::Block(Ok(hash))
            &&& transaction@ == transfer(
                secret,
                after.recipient,
                priority_fee,
                config,
                hash@,
            )
        },
        ComparePhase::RpcSend => {
            &&& action matches CompareAction::SendRpc { transaction }
            &&& event matches CompareEvent::Block(Ok(hash))
            &&& transaction@ == transfer(
                secret,
                after.recipient,
                priority_fee,
                config,
                hash@,
            )
        },
        ComparePhase::Over => action is Report,
    }
}

/// How many transactions of the current iteration have ended.
pub open spec fn ended_in_iteration(c: CompareView) -> nat {
    if c.phase == ComparePhase::RpcBlock || c.phase == ComparePhase::RpcSend {
        1
    } else {
        0
    }
}

/// How many iterations a comparison may have ended, and how many latencies it may have noted.
pub open spec fn is_sound(c: CompareView) -> bool {
    &&& c.iteration <= c.iterations
    &&& c.phase is DirectBlock || c.phase is DirectSend || c.phase is RpcBlock
        || c.phase is RpcSend ==> c.iteration < c.iterations
    &&& c.direct_ns.len() <= c.iterations
    &&& c.rpc_ns.len() <= c.iteration
    &&& c.phase != ComparePhase::Over ==> c.direct_ns.len() <= c.iteration
        + ended_in_iteration(c)
}

impl CompareRun {
    /// The iterations and the latencies stay within what the phase allows.
    #[verifier::type_invariant]
    spec fn sound(self) -> bool {
        is_sound(self@)
    }

    /// A comparison of `iterations` iterations that sends to `recipient`. The balance of the
    /// sender is what it asks for first.
    pub fn new(iterations: u64, recipient: Pubkey) -> (r: CompareRun)
        ensures
            r@ == compare_start(iterations, recipient@),
    {
        CompareRun {
            iterations,
            iteration: 0,
            recipient,
            phase: ComparePhase::Balance,
            direct_ns: Vec::new(),
            rpc_ns: Vec::new(),
        }
    }

    /// What the comparison waits for.
    pub fn phase(&self) -> (r: ComparePhase)
        ensures
            r == self@.phase,
    {
        self.phase
    }

    /// How many iterations have ended.
    pub fn iteration(&self) -> (r: u64)
        ensures
            r == self@.iteration,
    {
        self.iteration
    }

    /// The latencies of the transactions that were sent to the leader, in nanoseconds.
    pub fn direct_ns(&self) -> (r: &Vec<u64>)
        ensures
            r@ == self@.direct_ns,
    {
        &self.direct_ns
    }

    /// The latencies of the transactions that were sent through RPC, in nanoseconds.
    pub fn rpc_ns(&self) -> (r: &Vec<u64>)
        ensures
            r@ == self@.rpc_ns,
    {
        &self.rpc_ns
    }

    /// Goes on with the event that the comparison waits for, and says what to do next.
    pub fn compare_latency(
        &mut self,
        event: CompareEvent,
        cartographer: &Cartographer,
        blocklist: &Blocklist,
        secret: &[u8; 32],
        priority_fee: u64,
        config: &Config,
        metrics: &mut Metrics,
    ) -> (r: Result<CompareAction, String>)
        requires
            waits_for(old(self)@.phase, event),
        ensures
            final(self)@ == compare_after(
                old(self)@,
                event,
                public_key(secret@),
                target(cartographer@, blocklist@, cartographer@.slot as int),
            ),
            final(metrics)@ == compare_counts(
                old(self)@,
                event,
                target(cartographer@, blocklist@, cartographer@.slot as int),
                old(metrics)@,
            ),
            match compare_fault(event, public_key(secret@)) {
                Some(fault) => r matches Err(message) && message@ == fault,
                None => {
                    &&& r matches Ok(action)
                    &&& is_compare_action(
                        action,
                        old(self)@.phase,
                        event,
                        final(self)@,
                        secret@,
                        priority_fee,
                        config@,
                    )
                },
            },
    {
        proof {
            use_type_invariant(&*self);
        }
        match event {
            CompareEvent::Balance(reply) => {
                self.phase = ComparePhase::Over;
                let balance: u64 = match reply {
                    Ok(balance) => balance,
                    Err(reason) => {
                        return Err(reason);
                    },
                };
                if balance == 0 {
                    let sender: String = wallet(secret).to_text();
                    let mut message: String = joined("Sender wallet ", sender.as_str());
                    message.append(
                        " has 0 lamports on current cluster. Fund it first (e.g. devnet airdrop).",
                    );
                    return Err(message);
                }
                self.phase = ComparePhase::Account;
                Ok(CompareAction::AskAccount)
            },
            CompareEvent::Account(found) => {
                if !found {
                    self.recipient = wallet(secret);
                }
                self.phase = ComparePhase::Iterate;
                Ok(CompareAction::Iterate)
            },
            CompareEvent::Iterate => {
                if self.iteration == self.iterations {
                    self.phase = ComparePhase::Over;
                    return Ok(CompareAction::Report);
                }
                let slot: u64 = cartographer.get_known_slot();
                match cartographer.get_target(slot, blocklist) {
                    Some(addr) => {
                        self.phase = ComparePhase::DirectBlock { addr };
                        Ok(CompareAction::AskBlock)
                    },
                    None => {
                        metrics.inc_leader_lookup_failed();
                        self.iteration = self.iteration + 1;
                        Ok(CompareAction::Iterate)
                    },
                }
            },
            CompareEvent::Block(reply) => {
                let hash: [u8; 32] = match reply {
                    Ok(hash) => hash,
                    Err(reason) => {
                        self.phase = ComparePhase::Over;
                        return Err(reason);
                    },
                };
                let transaction: SignedTransaction = build_signed_transfer_tx(
                    secret,
                    &self.recipient,
                    priority_fee,
                    config.default_compute_unit_limit,
                    &hash,
                );
                metrics.inc_tx_attempted();
                match self.phase {
                    ComparePhase::DirectBlock { addr } => {
                        self.phase = ComparePhase::DirectSend;
                        Ok(CompareAction::SendDirect { addr, transaction })
                    },
                    _ => {
                        self.phase = ComparePhase::RpcSend;
                        Ok(CompareAction::SendRpc { transaction })
                    },
                }
            },
            CompareEvent::Sent(sent) => {
                if sent.is_some() {
                    metrics.inc_tx_sent();
                } else {
                    metrics.inc_tx_failed();
                }
                if self.phase == ComparePhase::DirectSend {
                    let mut direct_ns: Vec<u64> = Vec::new();
                    std::mem::swap(&mut direct_ns, &mut self.direct_ns);
                    self.phase = ComparePhase::RpcBlock;
                    if let Some(ns) = sent {
                        direct_ns.push(ns);
                    }
                    self.direct_ns = direct_ns;
                    Ok(CompareAction::AskBlock)
                } else {
                    let mut direct_ns: Vec<u64> = Vec::new();
                    std::mem::swap(&mut direct_ns, &mut self.direct_ns);
                    let mut rpc_ns: Vec<u64> = Vec::new();
                    std::mem::swap(&mut rpc_ns, &mut self.rpc_ns);
                    self.phase = ComparePhase::Iterate;
                    self.iteration = self.iteration + 1;
                    if let Some(ns) = sent {
                        rpc_ns.push(ns);
                    }
                    self.direct_ns = direct_ns;
                    self.rpc_ns = rpc_ns;
                    Ok(CompareAction::Iterate)
                }
            },
        }
    }
}

/// A comparison that goes on from a sound one is sound: it never has more iterations than were
/// asked for, and never more latencies of a kind than iterations.
pub proof fn law_comparison_stays_sound(
    c: CompareView,
    event: CompareEvent,
    sender: Seq<u8>,
    leader: Option<SocketAddr>,
)
    requires
        is_sound(c),
        waits_for(c.phase, event),
    ensures
        is_sound(compare_after(c, event, sender, leader)),
{
}

/// How many events a comparison may still wait for.
pub open spec fn steps_left(c: CompareView) -> int {
    let after: int = 5 * (c.iterations - c.iteration);
    match c.phase {
        ComparePhase::Balance => after + 3,
        ComparePhase::Account => after + 2,
        ComparePhase::Iterate => after + 1,
        ComparePhase::DirectBlock { addr: _ } => after,
        ComparePhase::DirectSend => after - 1,
        ComparePhase::RpcBlock => after - 2,
        ComparePhase::RpcSend => after - 3,
        ComparePhase::Over => 0,
    }
}

/// A comparison ends: each event brings it nearer to its end, and it is over exactly where no
/// event is left. So one of `n` iterations takes `5 * n + 3` events at most.
pub proof fn law_comparison_ends(
    c: CompareView,
    event: CompareEvent,
    sender: Seq<u8>,
    leader: Option<SocketAddr>,
)
    requires
        is_sound(c),
        waits_for(c.phase, event),
    ensures
        0 <= steps_left(compare_after(c, event, sender, leader)) < steps_left(c),
        steps_left(c) == 0 <==> c.phase == ComparePhase::Over,
{
}

/// Whether the comparison `c` waits for `events`, one after the other. With each event comes
/// the target of the slot that is current then.
pub open spec fn waits_for_all(
    c: CompareView,
    events: Seq<(CompareEvent, Option<SocketAddr>)>,
    sender: Seq<u8>,
) -> bool
    decreases events.len(),
{
    events.len() > 0 ==> {
        &&& waits_for_all(c, events.drop_last(), sender)
        &&& waits_for(after_all(c, events.drop_last(), sender).phase, events.last().0)
    }
}

/// The comparison `c` after `events`.
pub open spec fn after_all(
    c: CompareView,
    events: Seq<(CompareEvent, Option<SocketAddr>)>,
    sender: Seq<u8>,
) -> CompareView
    decreases events.len(),
{
    if events.len() == 0 {
        c
    } else {
        compare_after(
            after_all(c, events.drop_last(), sender),
            events.last().0,
            sender,
            events.last().1,
        )
    }
}

/// The counters after the comparison `c` was told `events`.
pub open spec fn counts_after(
    c: CompareView,
    events: Seq<(CompareEvent, Option<SocketAddr>)>,
    sender: Seq<u8>,
    before: MetricsSnapshot,
) -> MetricsSnapshot
    decreases events.len(),
{
    if events.len() == 0 {
        before
    } else {
        compare_counts(
            after_all(c, events.drop_last(), sender),
            events.last().0,
            events.last().1,
            counts_after(c, events.drop_last(), sender, before),
        )
    }
}

/// How many latencies a comparison has noted.
pub open spec fn latencies(c: CompareView) -> nat {
    c.direct_ns.len() + c.rpc_ns.len()
}

/// How many transactions of a comparison are on their way.
pub open spec fn on_their_way(c: CompareView) -> nat {
    if c.phase == ComparePhase::DirectSend || c.phase == ComparePhase::RpcSend {
        1
    } else {
        0
    }
}

/// Whether the counters went from `before` to `after` while `sent` transactions were sent,
/// `failed` could not be sent, `pending` are on their way, and `leaderless` slots had no target.
pub open spec fn counts_are(
    before: MetricsSnapshot,
    after: MetricsSnapshot,
    sent: nat,
    failed: nat,
    pending: nat,
    leaderless: nat,
) -> bool {
    after == MetricsSnapshot {
        tx_attempted: counted_on(before.tx_attempted, sent + failed + pending),
        tx_sent: counted_on(before.tx_sent, sent),
        tx_failed: counted_on(before.tx_failed, failed),
        leader_lookup_failed: counted_on(before.leader_lookup_failed, leaderless),
        ..before
    }
}

/// A comparison is sound from its start on, whatever it is told.
proof fn lemma_comparison_is_sound(
    iterations: u64,
    recipient: Seq<u8>,
    events: Seq<(CompareEvent, Option<SocketAddr>)>,
    sender: Seq<u8>,
)
    requires
        waits_for_all(compare_start(iterations, recipient), events, sender),
    ensures
        is_sound(after_all(compare_start(iterations, recipient), events, sender)),
        after_all(compare_start(iterations, recipient), events, sender).iterations == iterations,
    decreases events.len(),
{
    if events.len() > 0 {
        lemma_comparison_is_sound(iterations, recipient, events.drop_last(), sender);
    }
}

/// Whether `events` end with the one that makes a comparison, which is `c` after them, report.
pub open spec fn reports(c: CompareView, events: Seq<(CompareEvent, Option<SocketAddr>)>) -> bool {
    events.len() > 0 && events.last().0 is Iterate && c.phase == ComparePhase::Over
}

/// Whether the transactions that have ended and the iterations without a leader fit the
/// iterations of the comparison `c`: an iteration with a leader ends two transactions.
pub open spec fn fits_iterations(c: CompareView, ended: nat, leaderless: nat) -> bool {
    ended + 2 * leaderless == 2 * c.iteration + ended_in_iteration(c)
}

/// An event keeps the counters in step with the comparison.
proof fn lemma_counts_stay_in_step(
    c: CompareView,
    event: CompareEvent,
    sender: Seq<u8>,
    leader: Option<SocketAddr>,
    before: MetricsSnapshot,
    m: MetricsSnapshot,
    failed: nat,
    leaderless: nat,
)
    requires
        is_sound(c),
        waits_for(c.phase, event),
        counts_are(before, m, latencies(c), failed, on_their_way(c), leaderless),
        fits_iterations(c, latencies(c) + failed, leaderless),
    ensures
        ({
            let d = compare_after(c, event, sender, leader);
            let after = compare_counts(c, event, leader, m);
            let broken_off = d.phase == ComparePhase::Over && !(event is Iterate);
            ||| {
                &&& counts_are(before, after, latencies(d), failed, on_their_way(d), leaderless)
                &&& broken_off || fits_iterations(d, latencies(d) + failed, leaderless)
            }
            ||| {
                &&& counts_are(before, after, latencies(d), failed + 1, on_their_way(d), leaderless)
                &&& broken_off || fits_iterations(d, latencies(d) + failed + 1, leaderless)
            }
            ||| {
                &&& counts_are(before, after, latencies(d), failed, on_their_way(d), leaderless + 1)
                &&& broken_off || fits_iterations(d, latencies(d) + failed, leaderless + 1)
            }
        }),
{
    let sent = latencies(c);
    lemma_counted_on(before.tx_attempted, sent + failed + on_their_way(c));
    lemma_counted_on(before.tx_sent, sent);
    lemma_counted_on(before.tx_failed, failed);
    lemma_counted_on(before.leader_lookup_failed, leaderless);
}

/// Whatever a comparison is told, every transaction that it attempts is counted as sent, counted
/// as failed, or still on its way, and it has noted one latency for each that was sent. As long
/// as it goes on, each iteration that has ended had no leader or ended two transactions; and
/// where it reports, all iterations have: the transactions that were sent and those that failed
/// are together twice as many as the iterations that had a leader.
pub proof fn law_latencies_are_of_what_was_sent(
    iterations: u64,
    recipient: Seq<u8>,
    events: Seq<(CompareEvent, Option<SocketAddr>)>,
    sender: Seq<u8>,
    before: MetricsSnapshot,
)
    requires
        waits_for_all(compare_start(iterations, recipient), events, sender),
    ensures
        ({
            let start = compare_start(iterations, recipient);
            let c = after_all(start, events, sender);
            exists|failed: nat, leaderless: nat|
                {
                    &&& #[trigger] counts_are(
                        before,
                        counts_after(start, events, sender, before),
                        latencies(c),
                        failed,
                        on_their_way(c),
                        leaderless,
                    )
                    &&& c.phase != ComparePhase::Over ==> fits_iterations(
                        c,
                        latencies(c) + failed,
                        leaderless,
                    )
                    &&& reports(c, events) ==> leaderless <= iterations && latencies(c) + failed
                        == 2 * (iterations - leaderless)
                }
        }),
    decreases events.len(),
{
    let start = compare_start(iterations, recipient);
    let after = counts_after(start, events, sender, before);
    if events.len() == 0 {
        lemma_counted_on(before.tx_attempted, 0);
        lemma_counted_on(before.tx_sent, 0);
        lemma_counted_on(before.tx_failed, 0);
        lemma_counted_on(before.leader_lookup_failed, 0);
        assert(counts_are(before, after, latencies(start), 0, on_their_way(start), 0));
    } else {
        let fewer = events.drop_last();
        law_latencies_are_of_what_was_sent(iterations, recipient, fewer, sender, before);
        let c = after_all(start, fewer, sender);
        let m = counts_after(start, fewer, sender, before);
        lemma_comparison_is_sound(iterations, recipient, fewer, sender);
        let (failed, leaderless) = choose|failed: nat, leaderless: nat|
            {
                &&& #[trigger] counts_are(
                    before,
                    m,
                    latencies(c),
                    failed,
                    on_their_way(c),
                    leaderless,
                )
                &&& c.phase != ComparePhase::Over ==> fits_iterations(
                    c,
                    latencies(c) + failed,
                    leaderless,
                )
            };
        lemma_counts_stay_in_step(
            c,
            events.last().0,
            sender,
            events.last().1,
            before,
            m,
            failed,
            leaderless,
        );
        let d = after_all(start, events, sender);
        assert(d == compare_after(c, events.last().0, sender, events.last().1));
        assert(after == compare_counts(c, events.last().0, events.last().1, m));
    }
}

/// What the events report of the transactions that were sent, in order: the latency of each, or
/// that it could not be sent.
pub open spec fn reported(events: Seq<(CompareEvent, Option<SocketAddr>)>) -> Seq<Option<u64>>
    decreases events.len(),
{
    if events.len() == 0 {
        Seq::empty()
    } else {
        let before = reported(events.drop_last());
        match events.last().0 {
            CompareEvent::Sent(sent) => before.push(sent),
            _ => before,
        }
    }
}

/// The latencies that stand at every second place of `sent`, beginning at `first`.
pub open spec fn every_second(sent: Seq<Option<u64>>, first: int) -> Seq<u64>
    decreases sent.len(),
{
    if sent.len() == 0 {
        Seq::empty()
    } else {
        let before = every_second(sent.drop_last(), first);
        if (sent.len() - 1) % 2 == first && sent.last() is Some {
            before.push(sent.last()->0)
        } else {
            before
        }
    }
}

/// The latencies that a comparison notes are exactly those that it was told, unchanged and in
/// their order: the first, third, fifth and so on are those of the transactions to the leader, the
/// second, fourth, sixth and so on those of the transactions through RPC.
pub proof fn law_latencies_are_noted_as_told(
    iterations: u64,
    recipient: Seq<u8>,
    events: Seq<(CompareEvent, Option<SocketAddr>)>,
    sender: Seq<u8>,
)
    requires
        waits_for_all(compare_start(iterations, recipient), events, sender),
    ensures
        ({
            let c = after_all(compare_start(iterations, recipient), events, sender);
            &&& c.direct_ns == every_second(reported(events), 0)
            &&& c.rpc_ns == every_second(reported(events), 1)
            &&& c.phase != ComparePhase::Over ==> reported(events).len() % 2 == ended_in_iteration(c)
        }),
    decreases events.len(),
{
    if events.len() > 0 {
        let fewer = events.drop_last();
        law_latencies_are_noted_as_told(iterations, recipient, fewer, sender);
        let before = reported(fewer);
        match events.last().0 {
            CompareEvent::Sent(sent) => {
                assert(before.push(sent).drop_last() == before);
            },
            _ => {},
        }
    }
}

/// After a transaction was sent, its latency is the last one that is noted of its way, it is the
/// one that was told, and those before it and those of the other way are unchanged. A transaction
/// that could not be sent leaves them all as they are.
pub proof fn law_latency_is_noted_last(
    c: CompareView,
    ns: u64,
    sender: Seq<u8>,
    leader: Option<SocketAddr>,
)
    ensures
        c.phase == ComparePhase::DirectSend ==> ({
            let d = compare_after(c, CompareEvent::Sent(Some(ns)), sender, leader);
            &&& d.direct_ns.len() == c.direct_ns.len() + 1
            &&& d.direct_ns.last() == ns
            &&& d.direct_ns.drop_last() == c.direct_ns
            &&& d.rpc_ns == c.rpc_ns
        }),
        c.phase == ComparePhase::RpcSend ==> ({
            let d = compare_after(c, CompareEvent::Sent(Some(ns)), sender, leader);
            &&& d.rpc_ns.len() == c.rpc_ns.len() + 1
            &&& d.rpc_ns.last() == ns
            &&& d.rpc_ns.drop_last() == c.rpc_ns
            &&& d.direct_ns == c.direct_ns
        }),
        c.phase == ComparePhase::DirectSend || c.phase == ComparePhase::RpcSend ==> ({
            let d = compare_after(c, CompareEvent::Sent(None), sender, leader);
            &&& d.direct_ns == c.direct_ns
            &&& d.rpc_ns == c.rpc_ns
        }),
{
    assert(c.direct_ns.push(ns).drop_last() == c.direct_ns);
    assert(c.rpc_ns.push(ns).drop_last() == c.rpc_ns);
}

/// No event but the end of a sending changes the latencies, none but the answer on the account
/// changes the recipient, and none changes how many iterations were asked for.
pub proof fn law_events_leave_the_rest_alone(
    c: CompareView,
    event: CompareEvent,
    sender: Seq<u8>,
    leader: Option<SocketAddr>,
)
    requires
        waits_for(c.phase, event),
    ensures
        ({
            let d = compare_after(c, event, sender, leader);
            &&& d.iterations == c.iterations
            &&& !(event is Sent) ==> d.direct_ns == c.direct_ns && d.rpc_ns == c.rpc_ns
            &&& !(event is Account) ==> d.recipient == c.recipient
            &&& event matches CompareEvent::Account(found) ==> d.recipient == if found {
                c.recipient
            } else {
                sender
            }
        }),
{
}

/// The way of a comparison: the balance, then the account, then the iterations. An iteration with
/// a leader asks for a block, sends to the leader, asks for a block and sends through RPC; one
/// without a leader is over at once. After the last iteration the comparison is over.
pub proof fn law_comparison_takes_its_way(
    c: CompareView,
    sender: Seq<u8>,
    leader: Option<SocketAddr>,
    balance: u64,
    reason: String,
    found: bool,
    hash: [u8; 32],
    sent: Option<u64>,
)
    requires
        is_sound(c),
    ensures
        ({
            let over = CompareView { phase: ComparePhase::Over, ..c };
            let after = |event: CompareEvent| compare_after(c, event, sender, leader);
            &&& c.phase == ComparePhase::Balance ==> {
                &&& balance == 0 ==> after(CompareEvent::Balance(Ok(balance))) == over
                &&& balance != 0 ==> after(CompareEvent::Balance(Ok(balance)))
                    == (CompareView { phase: ComparePhase::Account, ..c })
                &&& after(CompareEvent::Balance(Err(reason))) == over
            }
            &&& c.phase == ComparePhase::Account ==> {
                let d = after(CompareEvent::Account(found));
                d.phase == ComparePhase::Iterate && d.iteration == c.iteration
            }
            &&& c.phase == ComparePhase::Iterate ==> {
                &&& c.iteration == c.iterations ==> after(CompareEvent::Iterate) == over
                &&& c.iteration < c.iterations && leader is Some ==> after(CompareEvent::Iterate)
                    == (CompareView {
                    phase: ComparePhase::DirectBlock { addr: leader->0 },
                    ..c
                })
                &&& c.iteration < c.iterations && leader is None ==> {
                    let d = after(CompareEvent::Iterate);
                    d.phase == ComparePhase::Iterate && d.iteration == c.iteration + 1
                }
            }
            &&& c.phase is DirectBlock ==> {
                &&& after(CompareEvent::Block(Ok(hash)))
                    == (CompareView { phase: ComparePhase::DirectSend, ..c })
                &&& after(CompareEvent::Block(Err(reason))) == over
            }
            &&& c.phase == ComparePhase::DirectSend ==> {
                let d = after(CompareEvent::Sent(sent));
                d.phase == ComparePhase::RpcBlock && d.iteration == c.iteration
            }
            &&& c.phase == ComparePhase::RpcBlock ==> {
                &&& after(CompareEvent::Block(Ok(hash)))
                    == (CompareView { phase: ComparePhase::RpcSend, ..c })
                &&& after(CompareEvent::Block(Err(reason))) == over
            }
            &&& c.phase == ComparePhase::RpcSend ==> {
                let d = after(CompareEvent::Sent(sent));
                d.phase == ComparePhase::Iterate && d.iteration == c.iteration + 1
            }
        }),
{
}

/// A comparison begins with the balance, with nothing done.
pub proof fn law_comparison_begins_with_nothing_done(iterations: u64, recipient: Seq<u8>)
    ensures
        ({
            let c = compare_start(iterations, recipient);
            &&& c.iterations == iterations
            &&& c.iteration == 0
            &&& c.recipient == recipient
            &&& c.phase == ComparePhase::Balance
            &&& c.direct_ns.len() == 0
            &&& c.rpc_ns.len() == 0
        }),
{
}

/// A comparison waits for the answer to what it asked, whatever the answer is, and for nothing
/// once it is over.
pub proof fn law_every_answer_is_taken(
    event: CompareEvent,
    addr: SocketAddr,
    balance: Result<u64, String>,
    found: bool,
    block: Result<[u8; 32], String>,
    sent: Option<u64>,
)
    ensures
        waits_for(ComparePhase::Balance, CompareEvent::Balance(balance)),
        waits_for(ComparePhase::Account, CompareEvent::Account(found)),
        waits_for(ComparePhase::Iterate, CompareEvent::Iterate),
        waits_for(ComparePhase::DirectBlock { addr }, CompareEvent::Block(block)),
        waits_for(ComparePhase::DirectSend, CompareEvent::Sent(sent)),
        waits_for(ComparePhase::RpcBlock, CompareEvent::Block(block)),
        waits_for(ComparePhase::RpcSend, CompareEvent::Sent(sent)),
        !waits_for(ComparePhase::Over, event),
{
}

/// What is counted: an attempt where a block has come, what became of it where the sending has
/// ended, a missing leader where an iteration had none, and nothing else.
pub proof fn law_comparison_counts_what_happens(
    c: CompareView,
    event: CompareEvent,
    leader: Option<SocketAddr>,
    m: MetricsSnapshot,
)
    requires
        is_sound(c),
        waits_for(c.phase, event),
    ensures
        compare_counts(c, event, leader, m) == match event {
            CompareEvent::Block(Ok(_)) => (MetricsSnapshot {
                tx_attempted: counted_on(m.tx_attempted, 1),
                ..m
            }),
            CompareEvent::Sent(Some(_)) => (MetricsSnapshot {
                tx_sent: counted_on(m.tx_sent, 1),
                ..m
            }),
            CompareEvent::Sent(None) => (MetricsSnapshot {
                tx_failed: counted_on(m.tx_failed, 1),
                ..m
            }),
            CompareEvent::Iterate => if c.iteration < c.iterations && leader is None {
                MetricsSnapshot {
                    leader_lookup_failed: counted_on(m.leader_lookup_failed, 1),
                    ..m
                }
            } else {
                m
            },
            _ => m,
        },
{
    lemma_counted_on(m.tx_attempted, 0);
    lemma_counted_on(m.tx_sent, 0);
    lemma_counted_on(m.tx_failed, 0);
    lemma_counted_on(m.leader_lookup_failed, 0);
}

/// A comparison fails exactly where the balance is 0 or an answer did not come, and says why.
pub proof fn law_comparison_fails_without_lamports_or_answers(
    sender: Seq<u8>,
    balance: u64,
    reason: String,
    found: bool,
    hash: [u8; 32],
    sent: Option<u64>,
)
    ensures
        compare_fault(CompareEvent::Balance(Ok(0)), sender) == Some(
            concatenation(
                seq![
                    "Sender wallet "@,
                    pubkey_text(sender),
                    " has 0 lamports on current cluster. Fund it first (e.g. devnet airdrop)."@,
                ],
            ),
        ),
        balance != 0 ==> compare_fault(CompareEvent::Balance(Ok(balance)), sender) is None,
        compare_fault(CompareEvent::Balance(Err(reason)), sender) == Some(reason@),
        compare_fault(CompareEvent::Account(found), sender) is None,
        compare_fault(CompareEvent::Iterate, sender) is None,
        compare_fault(CompareEvent::Block(Ok(hash)), sender) is None,
        compare_fault(CompareEvent::Block(Err(reason)), sender) == Some(reason@),
        compare_fault(CompareEvent::Sent(sent), sender) is None,
{
    let p = seq![
        "Sender wallet "@,
        pubkey_text(sender),
        " has 0 lamports on current cluster. Fund it first (e.g. devnet airdrop)."@,
    ];
    reveal_with_fuel(concatenation, 4);
    assert(p.drop_last().drop_last().drop_last() =~= Seq::empty());
    assert(concatenation(p) =~= "Sender wallet "@ + pubkey_text(sender)
        + " has 0 lamports on current cluster. Fund it first (e.g. devnet airdrop)."@);
}

/// What a comparison asks for is what it then waits for; the transaction to the leader goes to the
/// leader that was found when the iteration began, and both transactions are transfers to the
/// recipient on top of the block that has come.
pub proof fn law_comparison_asks_for_what_it_waits_for(
    action: CompareAction,
    phase: ComparePhase,
    event: CompareEvent,
    after: CompareView,
    secret: Seq<u8>,
    priority_fee: u64,
    config: ConfigView,
)
    requires
        is_compare_action(action, phase, event, after, secret, priority_fee, config),
    ensures
        after.phase == ComparePhase::Balance ==> action is AskBalance,
        after.phase == ComparePhase::Account ==> action is AskAccount,
        after.phase == ComparePhase::Iterate ==> action is Iterate,
        after.phase is DirectBlock || after.phase == ComparePhase::RpcBlock ==> action is AskBlock,
        after.phase == ComparePhase::Over ==> action is Report,
        after.phase == ComparePhase::DirectSend ==> {
            &&& action matches CompareAction::SendDirect { addr, transaction }
            &&& phase matches ComparePhase::DirectBlock { addr: found }
            &&& event matches CompareEvent::Block(Ok(hash))
            &&& addr == found
            &&& transaction@ == transfer(secret, after.recipient, priority_fee, config, hash@)
        },
        after.phase == ComparePhase::RpcSend ==> {
            &&& action matches CompareAction::SendRpc { transaction }
            &&& event matches CompareEvent::Block(Ok(hash))
            &&& transaction@ == transfer(secret, after.recipient, priority_fee, config, hash@)
        },
{
}

} // verus!
