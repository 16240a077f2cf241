//! Watching the leaders: what the monitor prints, and which connections are warmed up ahead.

use crate::addr::SocketAddr;
use crate::blocklist::Blocklist;
use crate::cartographer::{target, upcoming, Cartographer};
use crate::metrics::concatenation;
use crate::text::{decimal, decimal_text};
use vstd::prelude::*;

verus! {

/// The line that the monitor prints of the slot `slot`, whose leader is found at `leader`.
pub open spec fn slot_line(slot: u64, leader: Option<Seq<char>>) -> Seq<char> {
    "Slot: "@ + decimal(slot as nat) + " | Leader IP: "@ + match leader {
        Some(addr) => addr,
        None => "UNKNOWN"@,
    }
}

/// The line that the monitor prints of the slot `slot`, whose leader is found at `leader`.
pub fn monitor_line(slot: u64, leader: Option<String>) -> (r: String)
    ensures
        r@ == slot_line(slot, crate::text::opt_text(leader)),
{
    let mut r: String = "Slot: ".to_owned();
    r.append(decimal_text(slot).as_str());
    r.append(" | Leader IP: ");
    match leader {
        Some(addr) => r.append(addr.as_str()),
        None => r.append("UNKNOWN"),
    }
    r
}

/// The slot that the monitor prints, and where its leader is found.
#[derive(Debug, Clone, Copy, PartialEq, Eq, Structural)]
pub struct SlotReport {
    pub slot: u64,
    pub leader: Option<SocketAddr>,
}

/// What the monitor does at a tick.
#[derive(Debug, Clone, Copy, PartialEq, Eq, Structural)]
pub struct TickReport {
    /// What it prints of the current slot. Slot 0 stands for one that is not known.
    pub printed: Option<SlotReport>,
    /// Whether it reports the counters.
    pub with_metrics: bool,
}

/// Watches the leaders, tick by tick.
#[derive(Debug)]
pub struct Monitor {
    tick: u64,
}

impl View for Monitor {
    type V = u64;

    /// How many ticks there were.
    closed spec fn view(&self) -> u64 {
        self.tick
    }
}

impl Monitor {
    /// A monitor before its first tick.
    pub fn new() -> (r: Monitor)
        ensures
            r@ == 0,
    {
        Monitor { tick: 0 }
    }

    /// How many ticks there were.
    pub fn ticks(&self) -> (r: u64)
        ensures
            r == self@,
    {
        self.tick
    }

    /// What to do at the next tick. Every tenth tick the counters are reported.
    pub fn monitor_loop(&mut self, cartographer: &Cartographer, blocklist: &Blocklist) -> (r:
        TickReport)
        requires
            old(self)@ < u64::MAX,
        ensures
            final(self)@ == old(self)@ + 1,
            r.with_metrics == (final(self)@ % 10 == 0),
            r.printed == if cartographer@.slot == 0 {
                None
            } else {
                Some(
                    SlotReport {
                        slot: cartographer@.slot,
                        leader: target(cartographer@, blocklist@, cartographer@.slot as int),
                    },
                )
            },
    {
        let slot: u64 = cartographer.get_known_slot();
        let printed: Option<SlotReport> = if slot > 0 {
            Some(SlotReport { slot, leader: cartographer.get_target(slot, blocklist) })
        } else {
            None
        };
        self.tick = self.tick + 1;
        TickReport { printed, with_metrics: self.tick % 10 == 0 }
    }
}

/// The leaders to connect to ahead of the `lookahead` slots after the current one, each once, in
/// the order of the slots. There are none while no slot is known. Blocked validators are
/// skipped.
pub fn scout(cartographer: &Cartographer, lookahead: u64, blocklist: &Blocklist) -> (r: Vec<
    SocketAddr,
>)
    requires
        cartographer@.slot + lookahead <= u64::MAX,
    ensures
        r@ == if cartographer@.slot == 0 {
            Seq::empty()
        } else {
            upcoming(cartographer@, blocklist@, cartographer@.slot as int, lookahead as nat)
        },
{
    let slot: u64 = cartographer.get_known_slot();
    if slot > 0 {
        cartographer.get_upcoming_leaders(slot, lookahead, blocklist)
    } else {
        Vec::new()
    }
}

/// The line of a slot has the slot in decimal, and then its leader, or that it is unknown.
pub proof fn law_line_names_slot_and_leader(slot: u64, leader: Seq<char>)
    ensures
        ({
            let head = concatenation(
                seq!["Slot: "@, decimal(slot as nat), " | Leader IP: "@],
            );
            &&& slot_line(slot, Some(leader)) == head + leader
            &&& slot_line(slot, None) == head + "UNKNOWN"@
        }),
{
    let p = seq!["Slot: "@, decimal(slot as nat), " | Leader IP: "@];
    reveal_with_fuel(concatenation, 4);
    assert(p.drop_last().drop_last().drop_last() =~= Seq::empty());
    assert(concatenation(p) =~= "Slot: "@ + decimal(slot as nat) + " | Leader IP: "@);
}

} // verus!
