//! Counters of what happened to the transactions of a session.

use crate::text::decimal_text;
use vstd::prelude::*;

verus! {

/// The counters of a session.
#[derive(Debug)]
pub struct Metrics {
    tx_attempted: u64,
    tx_sent: u64,
    tx_failed: u64,
    leader_lookup_failed: u64,
    geyser_reconnects: u64,
}

/// The counters at one moment.
#[derive(Debug, Clone, Copy, PartialEq, Eq, Structural)]
pub struct MetricsSnapshot {
    pub tx_attempted: u64,
    pub tx_sent: u64,
    pub tx_failed: u64,
    pub leader_lookup_failed: u64,
    pub geyser_reconnects: u64,
}

/// The count after `n`. A counter that is full starts again at zero.
pub open spec fn bump(n: u64) -> u64 {
    if n == u64::MAX {
        0
    } else {
        (n + 1) as u64
    }
}

impl MetricsSnapshot {
    /// The counters after one more transaction was about to be sent.
    pub open spec fn attempted(self) -> MetricsSnapshot {
        MetricsSnapshot { tx_attempted: bump(self.tx_attempted), ..self }
    }

    /// The counters after one more transaction was sent.
    pub open spec fn sent(self) -> MetricsSnapshot {
        MetricsSnapshot { tx_sent: bump(self.tx_sent), ..self }
    }

    /// The counters after one more transaction could not be sent.
    pub open spec fn failed(self) -> MetricsSnapshot {
        MetricsSnapshot { tx_failed: bump(self.tx_failed), ..self }
    }

    /// The counters after one more slot had no target.
    pub open spec fn without_leader(self) -> MetricsSnapshot {
        MetricsSnapshot { leader_lookup_failed: bump(self.leader_lookup_failed), ..self }
    }

    /// The counters after one more connection to Geyser had to be made again.
    pub open spec fn reconnected(self) -> MetricsSnapshot {
        MetricsSnapshot { geyser_reconnects: bump(self.geyser_reconnects), ..self }
    }
}

impl View for Metrics {
    type V = MetricsSnapshot;

    closed spec fn view(&self) -> MetricsSnapshot {
        MetricsSnapshot {
            tx_attempted: self.tx_attempted,
            tx_sent: self.tx_sent,
            tx_failed: self.tx_failed,
            leader_lookup_failed: self.leader_lookup_failed,
            geyser_reconnects: self.geyser_reconnects,
        }
    }
}

impl Default for Metrics {
    /// Counters at zero.
    fn default() -> (r: Metrics)
        ensures
            r@ == (MetricsSnapshot {
                tx_attempted: 0,
                tx_sent: 0,
                tx_failed: 0,
                leader_lookup_failed: 0,
                geyser_reconnects: 0,
            }),
    {
        Metrics {
            tx_attempted: 0,
            tx_sent: 0,
            tx_failed: 0,
            leader_lookup_failed: 0,
            geyser_reconnects: 0,
        }
    }
}

impl Metrics {
    /// Counts a transaction that is about to be sent.
    pub fn inc_tx_attempted(&mut self)
        ensures
            final(self)@ == old(self)@.attempted(),
    {
        self.tx_attempted = self.tx_attempted.wrapping_add(1);
    }

    /// Counts a transaction that was sent.
    pub fn inc_tx_sent(&mut self)
        ensures
            final(self)@ == old(self)@.sent(),
    {
        self.tx_sent = self.tx_sent.wrapping_add(1);
    }

    /// Counts a transaction that could not be sent.
    pub fn inc_tx_failed(&mut self)
        ensures
            final(self)@ == old(self)@.failed(),
    {
        self.tx_failed = self.tx_failed.wrapping_add(1);
    }

    /// Counts a slot whose leader has no target.
    pub fn inc_leader_lookup_failed(&mut self)
        ensures
            final(self)@ == old(self)@.without_leader(),
    {
        self.leader_lookup_failed = self.leader_lookup_failed.wrapping_add(1);
    }

    /// Counts a connection to Geyser that has to be made again.
    pub fn inc_geyser_reconnects(&mut self)
        ensures
            final(self)@ == old(self)@.reconnected(),
    {
        self.geyser_reconnects = self.geyser_reconnects.wrapping_add(1);
    }

    /// The counters as they are now.
    pub fn snapshot(&self) -> (r: MetricsSnapshot)
        ensures
            r == self@,
    {
        MetricsSnapshot {
            tx_attempted: self.tx_attempted,
            tx_sent: self.tx_sent,
            tx_failed: self.tx_failed,
            leader_lookup_failed: self.leader_lookup_failed,
            geyser_reconnects: self.geyser_reconnects,
        }
    }
}

/// The line that reports the counters `s` of the command `context`.
pub open spec fn metrics_line(context: Seq<char>, s: MetricsSnapshot) -> Seq<char> {
    "Metrics ["@ + context + "]: attempted="@ + crate::text::decimal(s.tx_attempted as nat)
        + " sent="@ + crate::text::decimal(s.tx_sent as nat) + " failed="@ + crate::text::decimal(
        s.tx_failed as nat,
    ) + " leader_lookup_failed="@ + crate::text::decimal(s.leader_lookup_failed as nat)
        + " geyser_reconnects="@ + crate::text::decimal(s.geyser_reconnects as nat)
}

/// The line that reports the counters after the command `context`.
pub fn log_metrics(context: &str, metrics: &Metrics) -> (line: String)
    ensures
        line@ == metrics_line(context@, metrics@),
{
    let s: MetricsSnapshot = metrics.snapshot();
    let mut line: String = "Metrics [".to_owned();
    line.append(context);
    line.append("]: attempted=");
    line.append(decimal_text(s.tx_attempted).as_str());
    line.append(" sent=");
    line.append(decimal_text(s.tx_sent).as_str());
    line.append(" failed=");
    line.append(decimal_text(s.tx_failed).as_str());
    line.append(" leader_lookup_failed=");
    line.append(decimal_text(s.leader_lookup_failed).as_str());
    line.append(" geyser_reconnects=");
    line.append(decimal_text(s.geyser_reconnects).as_str());
    line
}

/// A count goes up by one, around at the end of its range.
pub proof fn law_count_goes_up_by_one(n: u64)
    ensures
        bump(n) as int == (n + 1) % 0x1_0000_0000_0000_0000,
{
}

/// Each event is counted by its own counter, by one, and leaves the other four as they are.
pub proof fn law_events_have_their_own_counter(s: MetricsSnapshot)
    ensures
        ({
            let t = s.attempted();
            &&& t.tx_attempted as int == (s.tx_attempted + 1) % 0x1_0000_0000_0000_0000
            &&& (t.tx_sent, t.tx_failed, t.leader_lookup_failed, t.geyser_reconnects) == (
                s.tx_sent,
                s.tx_failed,
                s.leader_lookup_failed,
                s.geyser_reconnects,
            )
        }),
        ({
            let t = s.sent();
            &&& t.tx_sent as int == (s.tx_sent + 1) % 0x1_0000_0000_0000_0000
            &&& (t.tx_attempted, t.tx_failed, t.leader_lookup_failed, t.geyser_reconnects) == (
                s.tx_attempted,
                s.tx_failed,
                s.leader_lookup_failed,
                s.geyser_reconnects,
            )
        }),
        ({
            let t = s.failed();
            &&& t.tx_failed as int == (s.tx_failed + 1) % 0x1_0000_0000_0000_0000
            &&& (t.tx_attempted, t.tx_sent, t.leader_lookup_failed, t.geyser_reconnects) == (
                s.tx_attempted,
                s.tx_sent,
                s.leader_lookup_failed,
                s.geyser_reconnects,
            )
        }),
        ({
            let t = s.without_leader();
            &&& t.leader_lookup_failed as int == (s.leader_lookup_failed + 1)
                % 0x1_0000_0000_0000_0000
            &&& (t.tx_attempted, t.tx_sent, t.tx_failed, t.geyser_reconnects) == (
                s.tx_attempted,
                s.tx_sent,
                s.tx_failed,
                s.geyser_reconnects,
            )
        }),
        ({
            let t = s.reconnected();
            &&& t.geyser_reconnects as int == (s.geyser_reconnects + 1) % 0x1_0000_0000_0000_0000
            &&& (t.tx_attempted, t.tx_sent, t.tx_failed, t.leader_lookup_failed) == (
                s.tx_attempted,
                s.tx_sent,
                s.tx_failed,
                s.leader_lookup_failed,
            )
        }),
{
}

/// The pieces `pieces`, one behind the other.
pub open spec fn concatenation(pieces: Seq<Seq<char>>) -> Seq<char>
    decreases pieces.len(),
{
    if pieces.len() == 0 {
        Seq::empty()
    } else {
        concatenation(pieces.drop_last()) + pieces.last()
    }
}

/// The line that reports the counters has the command, and then each counter in decimal behind
/// its name.
pub proof fn law_line_has_every_counter(context: Seq<char>, s: MetricsSnapshot)
    ensures
        metrics_line(context, s) == concatenation(
            seq![
                "Metrics ["@,
                context,
                "]: attempted="@,
                crate::text::decimal(s.tx_attempted as nat),
                " sent="@,
                crate::text::decimal(s.tx_sent as nat),
                " failed="@,
                crate::text::decimal(s.tx_failed as nat),
                " leader_lookup_failed="@,
                crate::text::decimal(s.leader_lookup_failed as nat),
                " geyser_reconnects="@,
                crate::text::decimal(s.geyser_reconnects as nat),
            ],
        ),
{
    let p = seq![
        "Metrics ["@,
        context,
        "]: attempted="@,
        crate::text::decimal(s.tx_attempted as nat),
        " sent="@,
        crate::text::decimal(s.tx_sent as nat),
        " failed="@,
        crate::text::decimal(s.tx_failed as nat),
        " leader_lookup_failed="@,
        crate::text::decimal(s.leader_lookup_failed as nat),
        " geyser_reconnects="@,
        crate::text::decimal(s.geyser_reconnects as nat),
    ];
    reveal_with_fuel(concatenation, 13);
    assert(p.drop_last().drop_last().drop_last().drop_last().drop_last().drop_last().drop_last().drop_last().drop_last().drop_last().drop_last().drop_last()
        =~= Seq::empty());
    assert(concatenation(p) =~= metrics_line(context, s));
}

} // verus!
