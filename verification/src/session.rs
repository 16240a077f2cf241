//! Sending transactions: once to the current leader, or many times over one connection.

use crate::addr::SocketAddr;
use crate::blocklist::Blocklist;
use crate::cartographer::{target, Cartographer, CartographerView};
use crate::config::{Config, ConfigView};
use crate::error::SlipstreamError;
use crate::metrics::{Metrics, MetricsSnapshot};
use crate::pubkey::Pubkey;
use crate::transaction::{build_signed_transfer_tx, law_transfer_asks_for_what_was_asked, public_key, signed_transaction, transfer_plan, SignedTransaction};
use vstd::prelude::*;

verus! {

/// The transfer that is sent, as its signatures and its bytes: of one lamport from the wallet
/// whose secret key is `secret`, with the compute budget of the configuration.
pub open spec fn transfer(
    secret: Seq<u8>,
    recipient: Seq<u8>,
    priority_fee: u64,
    config: ConfigView,
    blockhash: Seq<u8>,
) -> (Seq<Seq<u8>>, Seq<u8>) {
    signed_transaction(
        transfer_plan(
            public_key(secret),
            recipient,
            priority_fee,
            config.default_compute_unit_limit,
        ),
        secret,
        blockhash,
    )
}

/// What to do with a transaction that is to be sent once.
#[derive(Debug)]
pub enum FireAction {
    /// Send it to the leader of the current slot.
    Send { addr: SocketAddr, transaction: SignedTransaction },
    /// Nothing: the current slot has no target.
    NoLeader { slot: u64 },
}

/// Whether `r` is what to do with the transaction `t` while `c` is known and `blocked` is
/// blocked.
pub open spec fn is_fire_action(
    r: FireAction,
    c: CartographerView,
    blocked: Set<Seq<u8>>,
    t: (Seq<Seq<u8>>, Seq<u8>),
) -> bool {
    match target(c, blocked, c.slot as int) {
        Some(leader) => {
            &&& r matches FireAction::Send { addr, transaction }
            &&& addr == leader
            &&& transaction@ == t
            &&& transaction.signatures@.len() == 1
        },
        None => r matches FireAction::NoLeader { slot } && slot == c.slot,
    }
}

/// The counters after a transaction is about to be sent to `addr`, or to nobody.
pub open spec fn fired(before: MetricsSnapshot, addr: Option<SocketAddr>) -> MetricsSnapshot {
    match addr {
        Some(_) => before.attempted(),
        None => before.attempted().without_leader(),
    }
}

/// Makes a transfer on top of the block `blockhash` and says where to send it. Where the block
/// could not be had, for the reason given, nothing is attempted.
pub fn fire_transaction(
    cartographer: &Cartographer,
    blocklist: &Blocklist,
    secret: &[u8; 32],
    recipient: &Pubkey,
    priority_fee: u64,
    config: &Config,
    blockhash: Result<[u8; 32], String>,
    metrics: &mut Metrics,
) -> (r: Result<FireAction, String>)
    ensures
        match blockhash {
            Ok(hash) => {
                &&& r matches Ok(action)
                &&& is_fire_action(
                    action,
                    cartographer@,
                    blocklist@,
                    transfer(secret@, recipient@, priority_fee, config@, hash@),
                )
                &&& final(metrics)@ == fired(
                    old(metrics)@,
                    target(cartographer@, blocklist@, cartographer@.slot as int),
                )
            },
            Err(reason) => {
                &&& r matches Err(message)
                &&& message@ == reason@
                &&& final(metrics)@ == old(metrics)@
            },
        },
{
    match blockhash {
        Ok(hash) => {
            let transaction: SignedTransaction = build_signed_transfer_tx(
                secret,
                recipient,
                priority_fee,
                config.default_compute_unit_limit,
                &hash,
            );
            metrics.inc_tx_attempted();
            let slot: u64 = cartographer.get_known_slot();
            match cartographer.get_target(slot, blocklist) {
                Some(addr) => Ok(FireAction::Send { addr, transaction }),
                None => {
                    metrics.inc_leader_lookup_failed();
                    Ok(FireAction::NoLeader { slot })
                },
            }
        },
        Err(reason) => Err(reason),
    }
}

/// The counters after the sending of a transaction has ended, with success or without.
pub open spec fn settled(before: MetricsSnapshot, success: bool) -> MetricsSnapshot {
    if success {
        before.sent()
    } else {
        before.failed()
    }
}

/// Counts how the sending of `transaction` ended, and gives its signature where it was sent.
pub fn fire_ended(
    sent: Result<(), SlipstreamError>,
    transaction: SignedTransaction,
    metrics: &mut Metrics,
) -> (r: Result<Vec<u8>, String>)
    ensures
        final(metrics)@ == settled(old(metrics)@, sent is Ok),
        match sent {
            Ok(_) => if transaction.signatures@.len() > 0 {
                r matches Ok(signature) && signature@ == transaction@.0[0]
            } else {
                r matches Err(message) && message@ == "Transaction has no signatures"@
            },
            Err(e) => r matches Err(message) && message@ == e.heading() + e.reason(),
        },
{
    match sent {
        Err(e) => {
            metrics.inc_tx_failed();
            Err(e.message())
        },
        Ok(_) => {
            metrics.inc_tx_sent();
            let mut signatures: Vec<Vec<u8>> = transaction.signatures;
            if signatures.len() == 0 {
                return Err("Transaction has no signatures".to_owned());
            }
            Ok(signatures.remove(0))
        },
    }
}

/// `n` counted on by `k`, around.
#[verifier::opaque]
pub open spec fn counted_on(n: u64, k: nat) -> u64 {
    ((n + k) % 0x1_0000_0000_0000_0000) as u64
}

/// Counting on by nothing changes nothing, and a count after `k` more is one after `k + 1`.
pub proof fn lemma_counted_on(n: u64, k: nat)
    ensures
        counted_on(n, 0) == n,
        crate::metrics::bump(counted_on(n, k)) == counted_on(n, k + 1),
{
    reveal(counted_on);
}

/// A transaction that is sent once is counted once as attempted, and once as what became of it:
/// sent, failed, or without a leader. Nothing else is counted.
pub proof fn law_fire_counts_one_fate(
    before: MetricsSnapshot,
    addr: Option<SocketAddr>,
    success: bool,
)
    ensures
        ({
            let after = if addr is Some {
                settled(fired(before, addr), success)
            } else {
                fired(before, addr)
            };
            &&& after.tx_attempted == counted_on(before.tx_attempted, 1)
            &&& after.tx_sent == counted_on(
                before.tx_sent,
                if addr is Some && success {
                    1
                } else {
                    0
                },
            )
            &&& after.tx_failed == counted_on(
                before.tx_failed,
                if addr is Some && !success {
                    1
                } else {
                    0
                },
            )
            &&& after.leader_lookup_failed == counted_on(
                before.leader_lookup_failed,
                if addr is None {
                    1
                } else {
                    0
                },
            )
            &&& after.geyser_reconnects == before.geyser_reconnects
        }),
{
    lemma_counted_on(before.tx_attempted, 0);
    lemma_counted_on(before.tx_sent, 0);
    lemma_counted_on(before.tx_failed, 0);
    lemma_counted_on(before.leader_lookup_failed, 0);
}

/// What to do to send a transaction many times.
#[derive(Debug)]
pub struct SpamPlan {
    /// The leader to connect to.
    pub addr: SocketAddr,
    /// What to send.
    pub transaction: SignedTransaction,
}

/// Makes a transfer on top of the block `blockhash` and says whom to send it to. There is nobody
/// where the block could not be had, for the reason given, and where the current slot has no
/// target.
pub fn spam_transactions(
    cartographer: &Cartographer,
    blocklist: &Blocklist,
    secret: &[u8; 32],
    recipient: &Pubkey,
    priority_fee: u64,
    config: &Config,
    blockhash: Result<[u8; 32], String>,
) -> (r: Result<SpamPlan, String>)
    ensures
        match blockhash {
            Ok(hash) => match target(cartographer@, blocklist@, cartographer@.slot as int) {
                Some(leader) => {
                    &&& r matches Ok(plan)
                    &&& plan.addr == leader
                    &&& plan.transaction@ == transfer(
                        secret@,
                        recipient@,
                        priority_fee,
                        config@,
                        hash@,
                    )
                },
                None => r matches Err(message) && message@ == "No leader found"@,
            },
            Err(reason) => r matches Err(message) && message@ == reason@,
        },
{
    match blockhash {
        Ok(hash) => {
            let transaction: SignedTransaction = build_signed_transfer_tx(
                secret,
                recipient,
                priority_fee,
                config.default_compute_unit_limit,
                &hash,
            );
            let slot: u64 = cartographer.get_known_slot();
            match cartographer.get_target(slot, blocklist) {
                Some(addr) => Ok(SpamPlan { addr, transaction }),
                None => Err("No leader found".to_owned()),
            }
        },
        Err(reason) => Err(reason),
    }
}

/// The rounds of a run that sends a transaction many times.
#[derive(Debug)]
pub struct SpamRun {
    count: u64,
    success_count: u64,
    fail_count: u64,
    in_round: bool,
}

/// How far a [`SpamRun`] is.
#[verifier::ext_equal]
pub struct SpamRunView {
    /// How many rounds there are to be.
    pub count: u64,
    /// How many rounds sent the transaction.
    pub success_count: u64,
    /// How many rounds failed.
    pub fail_count: u64,
    /// Whether a round is under way.
    pub in_round: bool,
}

impl SpamRunView {
    /// How many rounds have ended.
    pub open spec fn ended(self) -> int {
        self.success_count + self.fail_count
    }
}

impl View for SpamRun {
    type V = SpamRunView;

    closed spec fn view(&self) -> SpamRunView {
        SpamRunView {
            count: self.count,
            success_count: self.success_count,
            fail_count: self.fail_count,
            in_round: self.in_round,
        }
    }
}

/// A run of `count` rounds, before the first.
pub open spec fn spam_start(count: u64) -> SpamRunView {
    SpamRunView { count, success_count: 0, fail_count: 0, in_round: false }
}

/// The run after a round has begun.
pub open spec fn round_begun(run: SpamRunView) -> SpamRunView {
    SpamRunView { in_round: true, ..run }
}

/// The run after the round that was under way has ended.
pub open spec fn round_ended(run: SpamRunView, success: bool) -> SpamRunView {
    if success {
        SpamRunView { success_count: (run.success_count + 1) as u64, in_round: false, ..run }
    } else {
        SpamRunView { fail_count: (run.fail_count + 1) as u64, in_round: false, ..run }
    }
}

impl SpamRun {
    /// There are no more rounds than there are to be.
    #[verifier::type_invariant]
    spec fn within(self) -> bool {
        self.success_count + self.fail_count + (if self.in_round {
            1int
        } else {
            0
        }) <= self.count
    }

    /// A run of `count` rounds, before the first.
    pub fn new(count: u64) -> (r: SpamRun)
        ensures
            r@ == spam_start(count),
    {
        SpamRun { count, success_count: 0, fail_count: 0, in_round: false }
    }

    /// Begins a round, and gives its number, counted from 0; or nothing where all rounds have
    /// ended.
    pub fn begin_round(&mut self, metrics: &mut Metrics) -> (r: Option<u64>)
        requires
            !old(self)@.in_round,
        ensures
            if old(self)@.ended() < old(self)@.count {
                &&& r matches Some(i)
                &&& i == old(self)@.ended()
                &&& final(self)@ == round_begun(old(self)@)
                &&& final(metrics)@ == old(metrics)@.attempted()
            } else {
                &&& r is None
                &&& old(self)@.ended() == old(self)@.count
                &&& final(self)@ == old(self)@
                &&& final(metrics)@ == old(metrics)@
            },
    {
        proof {
            use_type_invariant(&*self);
        }
        let i: u64 = self.success_count + self.fail_count;
        if i < self.count {
            self.in_round = true;
            metrics.inc_tx_attempted();
            Some(i)
        } else {
            None
        }
    }

    /// Ends the round that is under way.
    pub fn end_round(&mut self, success: bool, metrics: &mut Metrics)
        requires
            old(self)@.in_round,
        ensures
            final(self)@ == round_ended(old(self)@, success),
            final(self)@.ended() == old(self)@.ended() + 1,
            final(metrics)@ == settled(old(metrics)@, success),
    {
        proof {
            use_type_invariant(&*self);
        }
        self.in_round = false;
        if success {
            self.success_count = self.success_count + 1;
            metrics.inc_tx_sent();
        } else {
            self.fail_count = self.fail_count + 1;
            metrics.inc_tx_failed();
        }
    }

    /// How many rounds sent the transaction.
    pub fn success_count(&self) -> (r: u64)
        ensures
            r == self@.success_count,
    {
        self.success_count
    }

    /// How many rounds failed.
    pub fn fail_count(&self) -> (r: u64)
        ensures
            r == self@.fail_count,
    {
        self.fail_count
    }
}

/// The run and the counters after one round has begun and ended for each of `outcomes`, which
/// say whether it succeeded.
pub open spec fn after_rounds(
    run: SpamRunView,
    m: MetricsSnapshot,
    outcomes: Seq<bool>,
) -> (SpamRunView, MetricsSnapshot)
    decreases outcomes.len(),
{
    if outcomes.len() == 0 {
        (run, m)
    } else {
        let (r, n) = after_rounds(run, m, outcomes.drop_last());
        (
            round_ended(round_begun(r), outcomes.last()),
            settled(n.attempted(), outcomes.last()),
        )
    }
}

/// How many of `outcomes` are `what`.
pub open spec fn times(outcomes: Seq<bool>, what: bool) -> nat
    decreases outcomes.len(),
{
    if outcomes.len() == 0 {
        0
    } else {
        times(outcomes.drop_last(), what) + (if outcomes.last() == what {
            1nat
        } else {
            0
        })
    }
}

/// Every round is counted as attempted, and as either sent or failed, both in the run and in the
/// counters of the session: a run of `count` rounds reports as many successes and failures
/// together as it has rounds.
pub proof fn law_rounds_are_all_accounted_for(count: u64, m: MetricsSnapshot, outcomes: Seq<bool>)
    requires
        outcomes.len() <= count,
    ensures
        ({
            let (run, after) = after_rounds(spam_start(count), m, outcomes);
            &&& run.success_count == times(outcomes, true)
            &&& run.fail_count == times(outcomes, false)
            &&& run.ended() == outcomes.len()
            &&& run.count == count
            &&& !run.in_round
            &&& after == MetricsSnapshot {
                tx_attempted: counted_on(m.tx_attempted, outcomes.len()),
                tx_sent: counted_on(m.tx_sent, times(outcomes, true)),
                tx_failed: counted_on(m.tx_failed, times(outcomes, false)),
                ..m
            }
        }),
    decreases outcomes.len(),
{
    if outcomes.len() == 0 {
        lemma_counted_on(m.tx_attempted, 0);
        lemma_counted_on(m.tx_sent, 0);
        lemma_counted_on(m.tx_failed, 0);
    } else {
        let fewer = outcomes.drop_last();
        law_rounds_are_all_accounted_for(count, m, fewer);
        lemma_counted_on(m.tx_attempted, fewer.len());
        lemma_counted_on(m.tx_sent, times(fewer, true));
        lemma_counted_on(m.tx_failed, times(fewer, false));
    }
}

/// What is sent is the transfer of the sender to the recipient, with the fee that was asked for
/// and the compute limit of the configuration, signed by the sender after the given block.
pub proof fn law_what_is_sent_is_the_signed_transfer(
    secret: Seq<u8>,
    recipient: Seq<u8>,
    priority_fee: u64,
    config: ConfigView,
    blockhash: Seq<u8>,
)
    ensures
        exists|plan: Seq<(Seq<u8>, Seq<(Seq<u8>, bool, bool)>, Seq<u8>)>|
            #![trigger signed_transaction(plan, secret, blockhash)]
            {
                let (limit, price, payment) = (plan[0].2, plan[1].2, plan[2]);
                &&& plan.len() == 3
                &&& limit.len() == 5 && limit[0] == 2
                &&& limit[1] + 0x100 * limit[2] + 0x1_0000 * limit[3] + 0x100_0000 * limit[4]
                    == config.default_compute_unit_limit
                &&& price.len() == 9 && price[0] == 3
                &&& price[1] + 0x100 * price[2] + 0x1_0000 * price[3] + 0x100_0000 * price[4]
                    + 0x1_0000_0000 * price[5] + 0x100_0000_0000 * price[6] + 0x1_0000_0000_0000
                    * price[7] + 0x100_0000_0000_0000 * price[8] == priority_fee
                &&& payment.1.len() == 2
                &&& payment.1[0] == (public_key(secret), true, true)
                &&& payment.1[1] == (recipient, false, true)
                &&& payment.2 == seq![2u8, 0u8, 0u8, 0u8, 1u8, 0u8, 0u8, 0u8, 0u8, 0u8, 0u8, 0u8]
                &&& transfer(secret, recipient, priority_fee, config, blockhash)
                    == signed_transaction(plan, secret, blockhash)
            },
{
    let plan = transfer_plan(
        public_key(secret),
        recipient,
        priority_fee,
        config.default_compute_unit_limit,
    );
    law_transfer_asks_for_what_was_asked(
        public_key(secret),
        recipient,
        priority_fee,
        config.default_compute_unit_limit,
    );
    assert(transfer(secret, recipient, priority_fee, config, blockhash) == signed_transaction(
        plan,
        secret,
        blockhash,
    ));
}

/// A transaction goes to the leader of the current slot, where that has a leader that is not
/// blocked and is on the map, and it is the transaction that was made; where the current slot has
/// no leader, or a blocked one, it goes nowhere.
pub proof fn law_fire_goes_to_the_current_leader(
    r: FireAction,
    c: CartographerView,
    blocked: Set<Seq<u8>>,
    t: (Seq<Seq<u8>>, Seq<u8>),
)
    requires
        is_fire_action(r, c, blocked, t),
    ensures
        ({
            let known = c.schedule.contains_key(c.slot) && !blocked.contains(c.schedule[c.slot])
                && c.nodes.contains_key(c.schedule[c.slot]);
            &&& known ==> r is Send && r->addr == c.nodes[c.schedule[c.slot]] && r->transaction@
                == t
            &&& !known ==> r is NoLeader && r->slot == c.slot
        }),
{
}

/// An attempt is counted whether there is a leader or not, a missing leader is counted as such,
/// and the end of the sending is counted as what it was.
pub proof fn law_attempts_and_ends_are_counted(
    m: MetricsSnapshot,
    addr: SocketAddr,
)
    ensures
        fired(m, Some(addr)) == (MetricsSnapshot {
            tx_attempted: counted_on(m.tx_attempted, 1),
            ..m
        }),
        fired(m, None) == (MetricsSnapshot {
            tx_attempted: counted_on(m.tx_attempted, 1),
            leader_lookup_failed: counted_on(m.leader_lookup_failed, 1),
            ..m
        }),
        settled(m, true) == (MetricsSnapshot { tx_sent: counted_on(m.tx_sent, 1), ..m }),
        settled(m, false) == (MetricsSnapshot { tx_failed: counted_on(m.tx_failed, 1), ..m }),
{
    lemma_counted_on(m.tx_attempted, 0);
    lemma_counted_on(m.tx_sent, 0);
    lemma_counted_on(m.tx_failed, 0);
    lemma_counted_on(m.leader_lookup_failed, 0);
}

/// Counting on is adding, around at the end of the range.
pub proof fn law_counting_on_is_adding(n: u64, k: nat)
    ensures
        counted_on(n, k) as int == (n + k) % 0x1_0000_0000_0000_0000,
{
    reveal(counted_on);
}

/// A run begins with no rounds; a round that begins changes no count; one that ends is counted
/// once, as what it was. The rounds that have ended are those that succeeded and those that
/// failed.
pub proof fn law_rounds_begin_and_end(count: u64, run: SpamRunView)
    requires
        run.success_count < u64::MAX,
        run.fail_count < u64::MAX,
    ensures
        spam_start(count) == (SpamRunView {
            count,
            success_count: 0,
            fail_count: 0,
            in_round: false,
        }),
        round_begun(run) == (SpamRunView { in_round: true, ..run }),
        round_ended(run, true).success_count == run.success_count + 1,
        round_ended(run, true).fail_count == run.fail_count,
        round_ended(run, false).success_count == run.success_count,
        round_ended(run, false).fail_count == run.fail_count + 1,
        round_ended(run, true).count == run.count && round_ended(run, false).count == run.count,
        !round_ended(run, true).in_round && !round_ended(run, false).in_round,
        run.ended() == run.success_count + run.fail_count,
{
}

/// Every outcome is a success or a failure, and is counted once.
pub proof fn law_outcomes_are_counted_once(outcomes: Seq<bool>, what: bool)
    ensures
        times(outcomes, true) + times(outcomes, false) == outcomes.len(),
        times(outcomes.push(what), what) == times(outcomes, what) + 1,
        times(outcomes.push(what), !what) == times(outcomes, !what),
    decreases outcomes.len(),
{
    assert(outcomes.push(what).drop_last() == outcomes);
    if outcomes.len() > 0 {
        law_outcomes_are_counted_once(outcomes.drop_last(), what);
    }
}

} // verus!
