//! The map of the cluster: which validator leads which slot, where it listens, and which slot
//! it is.

use crate::addr::SocketAddr;
use crate::blocklist::{file_keys, with_keys, Blocklist, BlocklistManagerView, FileRead};
use crate::error::SlipstreamError;
use crate::pubkey::{pubkey_of, Pubkey};
use crate::text::joined;
use std::collections::HashMap;
use vstd::prelude::*;

verus! {

broadcast use vstd::std_specs::hash::group_hash_axioms;

/// A validator as the cluster announces it.
#[derive(Debug)]
pub struct ClusterNode {
    /// The text of its key.
    pub pubkey: String,
    /// Where it takes transactions over QUIC, if it does.
    pub tpu_quic: Option<SocketAddr>,
}

/// The slots of an epoch that a validator leads.
#[derive(Debug)]
pub struct LeaderSlots {
    /// The text of its key.
    pub pubkey: String,
    /// The slots, counted from the first of the epoch.
    pub slots: Vec<usize>,
}

/// Where in the chain the cluster is.
#[derive(Debug, Clone, Copy)]
pub struct EpochInfo {
    pub epoch: u64,
    /// The slot, counted from the first of the chain.
    pub absolute_slot: u64,
    /// The slot, counted from the first of the epoch.
    pub slot_index: u64,
}

/// The map of the cluster.
pub struct Cartographer {
    rpc_url: String,
    nodes: Vec<(Pubkey, SocketAddr)>,
    schedule: HashMap<u64, Pubkey>,
    current_slot: u64,
    current_epoch: u64,
}

/// What a [`Cartographer`] knows.
#[verifier::ext_equal]
pub struct CartographerView {
    /// Where the cluster is asked.
    pub rpc_url: Seq<char>,
    /// Where each validator takes transactions.
    pub nodes: Map<Seq<u8>, SocketAddr>,
    /// Who leads each slot.
    pub schedule: Map<u64, Seq<u8>>,
    /// The current slot.
    pub slot: u64,
    /// The epoch of the schedule.
    pub epoch: u64,
}

/// Where the validators of `entries` take transactions. Of two entries for a validator the
/// later one holds.
pub open spec fn node_map(entries: Seq<(Pubkey, SocketAddr)>) -> Map<Seq<u8>, SocketAddr>
    decreases entries.len(),
{
    if entries.len() == 0 {
        Map::empty()
    } else {
        node_map(entries.drop_last()).insert(entries.last().0@, entries.last().1)
    }
}

/// The keys of a schedule, by their bytes.
pub open spec fn by_bytes(schedule: Map<u64, Pubkey>) -> Map<u64, Seq<u8>> {
    schedule.map_values(|key: Pubkey| key@)
}

impl View for Cartographer {
    type V = CartographerView;

    closed spec fn view(&self) -> CartographerView {
        CartographerView {
            rpc_url: self.rpc_url@,
            nodes: node_map(self.nodes@),
            schedule: by_bytes(self.schedule@),
            slot: self.current_slot,
            epoch: self.current_epoch,
        }
    }
}

/// The map of validators that the announcements `nodes` give. A validator that takes no
/// transactions over QUIC, or whose key is not the text of one, is left out. Of two
/// announcements of a validator the later one holds.
pub open spec fn topology(nodes: Seq<ClusterNode>) -> Map<Seq<u8>, SocketAddr>
    decreases nodes.len(),
{
    if nodes.len() == 0 {
        Map::empty()
    } else {
        let before = topology(nodes.drop_last());
        match (pubkey_of(nodes.last().pubkey@), nodes.last().tpu_quic) {
            (Some(key), Some(addr)) => before.insert(key, addr),
            _ => before,
        }
    }
}

/// `before` with `key` as the leader of the slots `slots`, counted from `start`.
pub open spec fn with_leader(
    before: Map<u64, Seq<u8>>,
    start: int,
    slots: Seq<usize>,
    key: Seq<u8>,
) -> Map<u64, Seq<u8>>
    decreases slots.len(),
{
    if slots.len() == 0 {
        before
    } else {
        with_leader(before, start, slots.drop_last(), key).insert(
            (start + slots.last()) as u64,
            key,
        )
    }
}

/// The leader of each slot of the epoch that begins at the slot `start`, as `entries` give
/// them. An entry whose key is not the text of one is left out. Where two entries claim a
/// slot the later one holds.
pub open spec fn leaders(start: int, entries: Seq<LeaderSlots>) -> Map<u64, Seq<u8>>
    decreases entries.len(),
{
    if entries.len() == 0 {
        Map::empty()
    } else {
        let before = leaders(start, entries.drop_last());
        match pubkey_of(entries.last().pubkey@) {
            Some(key) => with_leader(before, start, entries.last().slots@, key),
            None => before,
        }
    }
}

/// Whether the slots of an epoch that begins at `start` are slot numbers.
pub open spec fn slots_fit(start: int, entries: Seq<LeaderSlots>) -> bool {
    forall|i: int, j: int|
        #![trigger entries[i].slots@[j]]
        0 <= i < entries.len() && 0 <= j < entries[i].slots@.len() && pubkey_of(
            entries[i].pubkey@,
        ) is Some ==> start + entries[i].slots@[j] <= u64::MAX
}

/// Whether the schedule of the epoch `known` is that of the epoch `epoch`. Epoch 0 stands for
/// no schedule.
pub open spec fn is_known(known: u64, epoch: u64) -> bool {
    known == epoch && known != 0
}

/// Whether the leader schedule `entries` of the epoch of `info` is a schedule of slot
/// numbers.
pub open spec fn schedule_fits(info: EpochInfo, entries: Seq<LeaderSlots>) -> bool {
    info.slot_index <= info.absolute_slot && slots_fit(
        info.absolute_slot - info.slot_index,
        entries,
    )
}

/// Whether a new schedule, where one is taken over in epoch `known`, is a schedule of slot
/// numbers.
pub open spec fn update_fits(
    known: u64,
    epoch_info: Result<EpochInfo, String>,
    schedule: Result<Option<Vec<LeaderSlots>>, String>,
) -> bool {
    match (epoch_info, schedule) {
        (Ok(info), Ok(Some(entries))) => is_known(known, info.epoch) || schedule_fits(
            info,
            entries@,
        ),
        _ => true,
    }
}

/// Where to send a transaction for the slot `slot`: to the leader of the slot, unless it is
/// unknown, blocked, or not known to take transactions.
pub open spec fn target(c: CartographerView, blocked: Set<Seq<u8>>, slot: int) -> Option<
    SocketAddr,
> {
    if 0 <= slot <= u64::MAX && c.schedule.contains_key(slot as u64) {
        let leader = c.schedule[slot as u64];
        if !blocked.contains(leader) && c.nodes.contains_key(leader) {
            Some(c.nodes[leader])
        } else {
            None
        }
    } else {
        None
    }
}

/// The targets of the `count` slots after `slot`, each once, in the order of the slots.
pub open spec fn upcoming(c: CartographerView, blocked: Set<Seq<u8>>, slot: int, count: nat) -> Seq<
    SocketAddr,
>
    decreases count,
{
    if count == 0 {
        Seq::empty()
    } else {
        let before = upcoming(c, blocked, slot, (count - 1) as nat);
        match target(c, blocked, slot + count) {
            Some(addr) => if before.contains(addr) {
                before
            } else {
                before.push(addr)
            },
            None => before,
        }
    }
}

impl Cartographer {
    /// A map that knows nothing yet, of the cluster that is asked at `rpc_url`.
    pub fn new(rpc_url: String) -> (r: Cartographer)
        ensures
            r@ == (CartographerView {
                rpc_url: rpc_url@,
                nodes: Map::empty(),
                schedule: Map::empty(),
                slot: 0,
                epoch: 0,
            }),
    {
        let r = Cartographer {
            rpc_url,
            nodes: Vec::new(),
            schedule: HashMap::new(),
            current_slot: 0,
            current_epoch: 0,
        };
        assert(r@.schedule =~= Map::<u64, Seq<u8>>::empty());
        r
    }

    /// Where the cluster is asked.
    pub fn rpc_url(&self) -> (r: &str)
        ensures
            r@ == self@.rpc_url,
    {
        self.rpc_url.as_str()
    }

    /// The current slot, as far as is known.
    pub fn get_known_slot(&self) -> (r: u64)
        ensures
            r == self@.slot,
    {
        self.current_slot
    }

    /// Takes note of the current slot.
    pub fn update_slot(&mut self, slot: u64)
        ensures
            final(self)@ == (CartographerView { slot, ..old(self)@ }),
    {
        self.current_slot = slot;
    }

    /// Where the validator `key` takes transactions.
    fn node(&self, key: &Pubkey) -> (r: Option<SocketAddr>)
        ensures
            r == if self@.nodes.contains_key(key@) {
                Some(self@.nodes[key@])
            } else {
                None
            },
    {
        assert(self.nodes@.take(self.nodes@.len() as int) == self.nodes@);
        entry(&self.nodes, self.nodes.len(), key)
    }

    /// How many validators are known to take transactions.
    pub fn validator_count(&self) -> (n: usize)
        ensures
            self@.nodes.dom().finite(),
            n == self@.nodes.dom().len(),
    {
        let mut n: usize = 0;
        let mut i: usize = 0;
        while i < self.nodes.len()
            invariant
                i <= self.nodes.len(),
                n <= i,
                node_map(self.nodes@.take(i as int)).dom().finite(),
                n == node_map(self.nodes@.take(i as int)).dom().len(),
            decreases self.nodes.len() - i,
        {
            let ghost before = node_map(self.nodes@.take(i as int));
            assert(self.nodes@.take(i + 1).drop_last() == self.nodes@.take(i as int));
            let key: Pubkey = self.nodes[i].0;
            let is_new: bool = entry(&self.nodes, i, &key).is_none();
            assert(node_map(self.nodes@.take(i + 1)).dom() =~= before.dom().insert(key@));
            if is_new {
                n += 1;
            }
            i += 1;
        }
        assert(self.nodes@.take(self.nodes@.len() as int) == self.nodes@);
        n
    }

    /// Where to send a transaction for the slot `slot`. Blocked validators are skipped.
    pub fn get_target(&self, slot: u64, blocklist: &Blocklist) -> (r: Option<SocketAddr>)
        ensures
            r == target(self@, blocklist@, slot as int),
    {
        match self.schedule.get(&slot) {
            Some(leader) => if blocklist.contains(leader) {
                None
            } else {
                self.node(leader)
            },
            None => None,
        }
    }

    /// The targets of the `lookahead` slots after `current_slot`, each once, in the order of
    /// the slots. Blocked validators are skipped.
    pub fn get_upcoming_leaders(
        &self,
        current_slot: u64,
        lookahead: u64,
        blocklist: &Blocklist,
    ) -> (out: Vec<SocketAddr>)
        requires
            current_slot + lookahead <= u64::MAX,
        ensures
            out@ == upcoming(self@, blocklist@, current_slot as int, lookahead as nat),
    {
        let mut out: Vec<SocketAddr> = Vec::new();
        let mut i: u64 = 0;
        while i < lookahead
            invariant
                i <= lookahead,
                current_slot + lookahead <= u64::MAX,
                out@ == upcoming(self@, blocklist@, current_slot as int, i as nat),
            decreases lookahead - i,
        {
            i += 1;
            if let Some(addr) = self.get_target(current_slot + i, blocklist) {
                if !holds(&out, addr) {
                    out.push(addr);
                }
            }
        }
        out
    }

    /// Takes over the validators that the cluster announces, or says why there are none.
    pub fn refresh_topology(&mut self, nodes: Result<Vec<ClusterNode>, String>) -> (r: Result<
        (),
        SlipstreamError,
    >)
        ensures
            match nodes {
                Ok(nodes) => {
                    &&& r is Ok
                    &&& final(self)@ == (CartographerView { nodes: topology(nodes@), ..old(self)@ })
                },
                Err(reason) => {
                    &&& r matches Err(SlipstreamError::ConfigValidation(message))
                    &&& message@ == "rpc get_cluster_nodes failed: "@ + reason@
                    &&& final(self)@ == old(self)@
                },
            },
    {
        match nodes {
            Ok(nodes) => {
                let mut next: Vec<(Pubkey, SocketAddr)> = Vec::new();
                let mut i: usize = 0;
                while i < nodes.len()
                    invariant
                        i <= nodes.len(),
                        node_map(next@) == topology(nodes@.take(i as int)),
                    decreases nodes.len() - i,
                {
                    let ghost before = next@;
                    assert(nodes@.take(i + 1).drop_last() == nodes@.take(i as int));
                    if let Some(addr) = nodes[i].tpu_quic {
                        if let Some(key) = Pubkey::from_text(nodes[i].pubkey.as_str()) {
                            next.push((key, addr));
                            assert(next@.drop_last() == before);
                        }
                    }
                    i += 1;
                }
                assert(nodes@.take(nodes@.len() as int) == nodes@);
                self.nodes = next;
                Ok(())
            },
            Err(reason) => Err(
                SlipstreamError::ConfigValidation(
                    joined("rpc get_cluster_nodes failed: ", reason.as_str()),
                ),
            ),
        }
    }

    /// Whether the leader schedule has to be asked for when the cluster is in epoch `epoch`.
    pub fn needs_schedule(&self, epoch: u64) -> (r: bool)
        ensures
            r == !is_known(self@.epoch, epoch),
    {
        !(self.current_epoch == epoch && self.current_epoch != 0)
    }

    /// Takes over where in the chain the cluster is and, where the epoch is a new one, the
    /// leader schedule of the epoch. In a known epoch the schedule is not looked at.
    pub fn update_schedule(
        &mut self,
        epoch_info: Result<EpochInfo, String>,
        schedule: Result<Option<Vec<LeaderSlots>>, String>,
    ) -> (r: Result<(), SlipstreamError>)
        requires
            update_fits(old(self)@.epoch, epoch_info, schedule),
        ensures
            match epoch_info {
                Err(reason) => {
                    &&& r matches Err(SlipstreamError::ConfigValidation(message))
                    &&& message@ == "rpc get_epoch_info failed: "@ + reason@
                    &&& final(self)@ == old(self)@
                },
                Ok(info) => if is_known(old(self)@.epoch, info.epoch) {
                    &&& r is Ok
                    &&& final(self)@ == (CartographerView { slot: info.absolute_slot, ..old(self)@ })
                } else {
                    match schedule {
                        Err(reason) => {
                            &&& r matches Err(SlipstreamError::ConfigValidation(message))
                            &&& message@ == "rpc get_leader_schedule failed: "@ + reason@
                            &&& final(self)@ == old(self)@
                        },
                        Ok(None) => {
                            &&& r matches Err(SlipstreamError::ConfigValidation(message))
                            &&& message@ == "leader schedule unavailable"@
                            &&& final(self)@ == old(self)@
                        },
                        Ok(Some(entries)) => {
                            &&& r is Ok
                            &&& final(self)@ == (CartographerView {
                                schedule: leaders(info.absolute_slot - info.slot_index, entries@),
                                slot: info.absolute_slot,
                                epoch: info.epoch,
                                ..old(self)@
                            })
                        },
                    }
                },
            },
    {
        let info: EpochInfo = match epoch_info {
            Ok(info) => info,
            Err(reason) => {
                return Err(
                    SlipstreamError::ConfigValidation(
                        joined("rpc get_epoch_info failed: ", reason.as_str()),
                    ),
                );
            },
        };
        if !self.needs_schedule(info.epoch) {
            self.update_slot(info.absolute_slot);
            return Ok(());
        }
        match schedule {
            Err(reason) => Err(
                SlipstreamError::ConfigValidation(
                    joined("rpc get_leader_schedule failed: ", reason.as_str()),
                ),
            ),
            Ok(None) => Err(
                SlipstreamError::ConfigValidation("leader schedule unavailable".to_owned()),
            ),
            Ok(Some(entries)) => {
                let start: u64 = info.absolute_slot - info.slot_index;
                self.schedule = schedule_from(start, &entries);
                self.current_epoch = info.epoch;
                self.update_slot(info.absolute_slot);
                Ok(())
            },
        }
    }

    /// Takes note of the slot that the cluster was asked for, and hands it back.
    pub fn fetch_rpc_slot(&mut self, slot: Result<u64, String>) -> (r: Result<u64, SlipstreamError>)
        ensures
            match slot {
                Ok(slot) => {
                    &&& r matches Ok(s)
                    &&& s == slot
                    &&& final(self)@ == (CartographerView { slot, ..old(self)@ })
                },
                Err(reason) => {
                    &&& r matches Err(SlipstreamError::ConfigValidation(message))
                    &&& message@ == "rpc get_slot failed: "@ + reason@
                    &&& final(self)@ == old(self)@
                },
            },
    {
        match slot {
            Ok(slot) => {
                self.update_slot(slot);
                Ok(slot)
            },
            Err(reason) => Err(
                SlipstreamError::ConfigValidation(joined("rpc get_slot failed: ", reason.as_str())),
            ),
        }
    }
}

/// Where the validator `key` takes transactions, as the first `count` of `entries` say.
fn entry(entries: &Vec<(Pubkey, SocketAddr)>, count: usize, key: &Pubkey) -> (r: Option<SocketAddr>)
    requires
        count <= entries@.len(),
    ensures
        r == if node_map(entries@.take(count as int)).contains_key(key@) {
            Some(node_map(entries@.take(count as int))[key@])
        } else {
            None
        },
{
    let ghost all = node_map(entries@.take(count as int));
    let mut i: usize = count;
    while i > 0
        invariant
            i <= entries@.len(),
            all == node_map(entries@.take(count as int)),
            all.contains_key(key@) == node_map(entries@.take(i as int)).contains_key(key@),
            all.contains_key(key@) ==> all[key@] == node_map(entries@.take(i as int))[key@],
        decreases i,
    {
        assert(entries@.take(i as int).drop_last() == entries@.take(i - 1));
        if entries[i - 1].0.same(key) {
            return Some(entries[i - 1].1);
        }
        i -= 1;
    }
    None
}

/// The leader of each slot of the epoch that begins at the slot `start`.
fn schedule_from(start: u64, entries: &Vec<LeaderSlots>) -> (next: HashMap<u64, Pubkey>)
    requires
        slots_fit(start as int, entries@),
    ensures
        by_bytes(next@) == leaders(start as int, entries@),
{
    let mut next: HashMap<u64, Pubkey> = HashMap::new();
    assert(by_bytes(next@) =~= leaders(start as int, entries@.take(0)));
    let mut i: usize = 0;
    while i < entries.len()
        invariant
            i <= entries.len(),
            slots_fit(start as int, entries@),
            by_bytes(next@) == leaders(start as int, entries@.take(i as int)),
        decreases entries.len() - i,
    {
        assert(entries@.take(i + 1).drop_last() == entries@.take(i as int));
        if let Some(key) = Pubkey::from_text(entries[i].pubkey.as_str()) {
            let slots: &Vec<usize> = &entries[i].slots;
            let ghost before = by_bytes(next@);
            let mut j: usize = 0;
            while j < slots.len()
                invariant
                    j <= slots.len(),
                    i < entries.len(),
                    slots@ == entries@[i as int].slots@,
                    pubkey_of(entries@[i as int].pubkey@) is Some,
                    slots_fit(start as int, entries@),
                    by_bytes(next@) == with_leader(
                        before,
                        start as int,
                        slots@.take(j as int),
                        key@,
                    ),
                decreases slots.len() - j,
            {
                assert(slots@.take(j + 1).drop_last() == slots@.take(j as int));
                assert(start + entries@[i as int].slots@[j as int] <= u64::MAX);
                let ghost filled = next@;
                next.insert(start + slots[j] as u64, key);
                assert(by_bytes(next@) =~= by_bytes(filled).insert(
                    (start + slots@[j as int]) as u64,
                    key@,
                ));
                j += 1;
            }
            assert(slots@.take(slots@.len() as int) == slots@);
        }
        i += 1;
    }
    assert(entries@.take(entries@.len() as int) == entries@);
    next
}

/// Whether the leader schedule `entries` of the epoch of `info` is a schedule of slot
/// numbers.
pub fn check_schedule(info: &EpochInfo, entries: &Vec<LeaderSlots>) -> (r: bool)
    ensures
        r == schedule_fits(*info, entries@),
{
    if info.slot_index > info.absolute_slot {
        return false;
    }
    let start: u64 = info.absolute_slot - info.slot_index;
    let mut i: usize = 0;
    while i < entries.len()
        invariant
            i <= entries.len(),
            start == info.absolute_slot - info.slot_index,
            slots_fit(start as int, entries@.take(i as int)),
        decreases entries.len() - i,
    {
        if Pubkey::from_text(entries[i].pubkey.as_str()).is_some() {
            let slots: &Vec<usize> = &entries[i].slots;
            let mut j: usize = 0;
            while j < slots.len()
                invariant
                    j <= slots.len(),
                    i < entries.len(),
                    start == info.absolute_slot - info.slot_index,
                    slots@ == entries@[i as int].slots@,
                    pubkey_of(entries@[i as int].pubkey@) is Some,
                    forall|k: int| 0 <= k < j ==> start + #[trigger] slots@[k] <= u64::MAX,
                decreases slots.len() - j,
            {
                if slots[j] as u64 > u64::MAX - start {
                    assert(start + entries@[i as int].slots@[j as int] > u64::MAX);
                    return false;
                }
                j += 1;
            }
        }
        assert forall|m: int, k: int|
            #![trigger entries@.take(i + 1)[m].slots@[k]]
            0 <= m < i + 1 && 0 <= k < entries@.take(i + 1)[m].slots@.len() && pubkey_of(
                entries@.take(i + 1)[m].pubkey@,
            ) is Some implies start + entries@.take(i + 1)[m].slots@[k] <= u64::MAX by {
            if m < i {
                assert(entries@.take(i as int)[m] == entries@.take(i + 1)[m]);
                assert(start + entries@.take(i as int)[m].slots@[k] <= u64::MAX);
            }
        }
        i += 1;
    }
    assert(entries@.take(entries@.len() as int) == entries@);
    true
}

/// Whether `addrs` holds `addr`.
fn holds(addrs: &Vec<SocketAddr>, addr: SocketAddr) -> (r: bool)
    ensures
        r == addrs@.contains(addr),
{
    let mut i: usize = 0;
    while i < addrs.len()
        invariant
            i <= addrs.len(),
            forall|j: int| 0 <= j < i ==> addrs@[j] != addr,
        decreases addrs.len() - i,
    {
        if addrs[i] == addr {
            return true;
        }
        i += 1;
    }
    false
}

/// A blocked validator is never a target, even of the slots that it leads.
pub proof fn law_blocked_leader_is_no_target(
    c: CartographerView,
    blocked: Set<Seq<u8>>,
    slot: u64,
)
    requires
        c.schedule.contains_key(slot),
        blocked.contains(c.schedule[slot]),
    ensures
        target(c, blocked, slot as int) is None,
{
}

/// Blocking a validator leaves the slots of the others alone.
pub proof fn law_blocking_leaves_others_alone(
    c: CartographerView,
    blocked: Set<Seq<u8>>,
    slot: u64,
)
    requires
        c.schedule.contains_key(slot) ==> !blocked.contains(c.schedule[slot]),
    ensures
        target(c, blocked, slot as int) == target(c, Set::empty(), slot as int),
{
}

/// A validator that the local blocklist file lists is not a target once the file was loaded,
/// whatever was blocked before.
pub proof fn law_listed_validator_is_no_target(
    before: BlocklistManagerView,
    file: FileRead,
    c: CartographerView,
    slot: u64,
)
    requires
        c.schedule.contains_key(slot),
        file_keys(file).contains(c.schedule[slot]),
    ensures
        target(c, with_keys(before, file_keys(file)).blocked, slot as int) is None,
{
}

/// The coming targets are exactly the targets of the coming slots, none of them twice.
pub proof fn law_upcoming_are_the_targets(
    c: CartographerView,
    blocked: Set<Seq<u8>>,
    slot: int,
    count: nat,
)
    ensures
        upcoming(c, blocked, slot, count).no_duplicates(),
        forall|addr: SocketAddr| #[trigger]
            upcoming(c, blocked, slot, count).contains(addr) <==> exists|i: int|
                1 <= i <= count && #[trigger] target(c, blocked, slot + i) == Some(addr),
    decreases count,
{
    if count > 0 {
        let fewer = (count - 1) as nat;
        law_upcoming_are_the_targets(c, blocked, slot, fewer);
        let before = upcoming(c, blocked, slot, fewer);
        let all = upcoming(c, blocked, slot, count);
        assert forall|addr: SocketAddr| #[trigger] all.contains(addr) <==> exists|i: int|
            1 <= i <= count && #[trigger] target(c, blocked, slot + i) == Some(addr) by {
            if all.contains(addr) {
                if before.contains(addr) {
                    let i = choose|i: int|
                        1 <= i <= fewer && #[trigger] target(c, blocked, slot + i) == Some(addr);
                    assert(target(c, blocked, slot + i) == Some(addr));
                } else {
                    assert(target(c, blocked, slot + count) == Some(addr));
                }
            }
            if exists|i: int|
                1 <= i <= count && #[trigger] target(c, blocked, slot + i) == Some(addr) {
                let i = choose|i: int|
                    1 <= i <= count && #[trigger] target(c, blocked, slot + i) == Some(addr);
                if i < count {
                    assert(before.contains(addr));
                    let j = before.index_of(addr);
                    assert(all[j] == addr);
                } else if !before.contains(addr) {
                    assert(all[before.len() as int] == addr);
                }
            }
        }
    }
}

/// Each of the coming targets is that of a validator that leads one of the coming slots and is
/// not blocked.
pub proof fn law_blocked_leaders_are_not_scouted(
    c: CartographerView,
    blocked: Set<Seq<u8>>,
    slot: int,
    count: nat,
    addr: SocketAddr,
)
    requires
        upcoming(c, blocked, slot, count).contains(addr),
    ensures
        exists|s: u64|
            slot < s <= slot + count && c.schedule.contains_key(s) && !blocked.contains(
                #[trigger] c.schedule[s],
            ) && c.nodes.contains_key(c.schedule[s]) && c.nodes[c.schedule[s]] == addr,
{
    law_upcoming_are_the_targets(c, blocked, slot, count);
    let i = choose|i: int|
        1 <= i <= count && #[trigger] target(c, blocked, slot + i) == Some(addr);
    let s = (slot + i) as u64;
    assert(c.schedule.contains_key(s) && !blocked.contains(c.schedule[s]));
}

/// Looking further ahead adds targets at the end and changes none.
pub proof fn law_looking_further_extends(
    c: CartographerView,
    blocked: Set<Seq<u8>>,
    slot: int,
    near: nat,
    far: nat,
)
    requires
        near <= far,
    ensures
        upcoming(c, blocked, slot, near).is_prefix_of(upcoming(c, blocked, slot, far)),
    decreases far,
{
    if near < far {
        law_looking_further_extends(c, blocked, slot, near, (far - 1) as nat);
    }
}

/// Whether `entries` name `key` as a leader of the slot `slot`, in an epoch that begins at
/// `start`.
pub open spec fn claims(
    start: int,
    entries: Seq<LeaderSlots>,
    slot: u64,
    key: Seq<u8>,
) -> bool {
    exists|i: int| 0 <= i < entries.len() && entry_claims(start, #[trigger] entries[i], slot, key)
}

/// Whether `entry` names `key` as a leader of the slot `slot`.
pub open spec fn entry_claims(start: int, entry: LeaderSlots, slot: u64, key: Seq<u8>) -> bool {
    pubkey_of(entry.pubkey@) == Some(key) && exists|j: int|
        0 <= j < entry.slots@.len() && start + #[trigger] entry.slots@[j] == slot
}

proof fn lemma_with_leader(
    before: Map<u64, Seq<u8>>,
    start: int,
    slots: Seq<usize>,
    key: Seq<u8>,
    slot: u64,
)
    requires
        0 <= start,
        forall|j: int| 0 <= j < slots.len() ==> start + #[trigger] slots[j] <= u64::MAX,
    ensures
        ({
            let after = with_leader(before, start, slots, key);
            let named = exists|j: int| 0 <= j < slots.len() && start + #[trigger] slots[j] == slot;
            &&& after.contains_key(slot) <==> before.contains_key(slot) || named
            &&& named ==> after[slot] == key
            &&& !named && before.contains_key(slot) ==> after[slot] == before[slot]
        }),
    decreases slots.len(),
{
    if slots.len() > 0 {
        let fewer = slots.drop_last();
        assert forall|j: int| 0 <= j < fewer.len() implies start + #[trigger] fewer[j]
            <= u64::MAX by {
            assert(fewer[j] == slots[j]);
        }
        lemma_with_leader(before, start, fewer, key, slot);
        assert(slots[slots.len() - 1] == slots.last());
        if exists|j: int| 0 <= j < fewer.len() && start + #[trigger] fewer[j] == slot {
            let j = choose|j: int| 0 <= j < fewer.len() && start + #[trigger] fewer[j] == slot;
            assert(start + slots[j] == slot);
        }
        if exists|j: int| 0 <= j < slots.len() && start + #[trigger] slots[j] == slot {
            let j = choose|j: int| 0 <= j < slots.len() && start + #[trigger] slots[j] == slot;
            if j < fewer.len() {
                assert(start + fewer[j] == slot);
            }
        }
    }
}

/// A slot has a leader in the schedule exactly where an entry claims it, and the leader is one
/// of those that claim it.
pub proof fn law_leader_claims_its_slot(start: int, entries: Seq<LeaderSlots>, slot: u64)
    requires
        0 <= start,
        slots_fit(start, entries),
    ensures
        leaders(start, entries).contains_key(slot) <==> exists|key: Seq<u8>|
            claims(start, entries, slot, key),
        leaders(start, entries).contains_key(slot) ==> claims(
            start,
            entries,
            slot,
            leaders(start, entries)[slot],
        ),
    decreases entries.len(),
{
    let all = leaders(start, entries);
    if entries.len() > 0 {
        let fewer = entries.drop_last();
        let last = entries.last();
        assert(slots_fit(start, fewer)) by {
            assert forall|i: int, j: int|
                #![trigger fewer[i].slots@[j]]
                0 <= i < fewer.len() && 0 <= j < fewer[i].slots@.len() && pubkey_of(
                    fewer[i].pubkey@,
                ) is Some implies start + fewer[i].slots@[j] <= u64::MAX by {
                assert(start + entries[i].slots@[j] <= u64::MAX);
            }
        }
        law_leader_claims_its_slot(start, fewer, slot);
        let before = leaders(start, fewer);
        assert forall|key: Seq<u8>| #[trigger]
            claims(start, entries, slot, key) <==> claims(start, fewer, slot, key) || entry_claims(
                start,
                last,
                slot,
                key,
            ) by {
            if claims(start, fewer, slot, key) {
                let i = choose|i: int|
                    0 <= i < fewer.len() && entry_claims(start, #[trigger] fewer[i], slot, key);
                assert(entry_claims(start, entries[i], slot, key));
            }
            if entry_claims(start, last, slot, key) {
                assert(entry_claims(start, entries[entries.len() - 1], slot, key));
            }
            if claims(start, entries, slot, key) {
                let i = choose|i: int|
                    0 <= i < entries.len() && entry_claims(start, #[trigger] entries[i], slot, key);
                if i < fewer.len() {
                    assert(entry_claims(start, fewer[i], slot, key));
                }
            }
        }
        match pubkey_of(last.pubkey@) {
            Some(key) => {
                assert forall|j: int| 0 <= j < last.slots@.len() implies start
                    + #[trigger] last.slots@[j] <= u64::MAX by {
                    assert(start + entries[entries.len() - 1].slots@[j] <= u64::MAX);
                }
                lemma_with_leader(before, start, last.slots@, key, slot);
                let named = exists|j: int|
                    0 <= j < last.slots@.len() && start + #[trigger] last.slots@[j] == slot;
                if named {
                    assert(entry_claims(start, last, slot, key));
                    assert(claims(start, entries, slot, key));
                } else {
                    assert forall|k: Seq<u8>| !entry_claims(start, last, slot, k) by {}
                    if before.contains_key(slot) {
                        assert(claims(start, entries, slot, before[slot]));
                    }
                }
            },
            None => {
                if before.contains_key(slot) {
                    assert(claims(start, entries, slot, before[slot]));
                }
            },
        }
        if exists|key: Seq<u8>| claims(start, entries, slot, key) {
            let key = choose|key: Seq<u8>| claims(start, entries, slot, key);
            if claims(start, fewer, slot, key) {
                assert(before.contains_key(slot));
            }
        }
    } else {
        assert(forall|key: Seq<u8>| !claims(start, entries, slot, key));
    }
}

/// Where no slot is claimed for two validators, the schedule does not depend on the order in
/// which the claims come: entries that make the same claims give the same schedule.
pub proof fn law_schedule_is_order_free(start: int, a: Seq<LeaderSlots>, b: Seq<LeaderSlots>)
    requires
        0 <= start,
        slots_fit(start, a),
        slots_fit(start, b),
        forall|slot: u64, key: Seq<u8>| #[trigger]
            claims(start, a, slot, key) <==> claims(start, b, slot, key),
        forall|slot: u64, k1: Seq<u8>, k2: Seq<u8>| #[trigger]
            claims(start, a, slot, k1) && #[trigger] claims(start, a, slot, k2) ==> k1 == k2,
    ensures
        leaders(start, a) == leaders(start, b),
{
    assert forall|slot: u64|
        leaders(start, a).contains_key(slot) == #[trigger] leaders(start, b).contains_key(slot)
            && (leaders(start, a).contains_key(slot) ==> leaders(start, a)[slot] == leaders(
            start,
            b,
        )[slot]) by {
        law_leader_claims_its_slot(start, a, slot);
        law_leader_claims_its_slot(start, b, slot);
        if leaders(start, a).contains_key(slot) {
            assert(claims(start, b, slot, leaders(start, a)[slot]));
        }
        if leaders(start, b).contains_key(slot) {
            assert(claims(start, a, slot, leaders(start, b)[slot]));
        }
    }
    assert(leaders(start, a) =~= leaders(start, b));
}

/// Whether `nodes` announce that the validator `key` takes transactions at `addr`.
pub open spec fn announces(nodes: Seq<ClusterNode>, key: Seq<u8>, addr: SocketAddr) -> bool {
    exists|i: int|
        0 <= i < nodes.len() && pubkey_of((#[trigger] nodes[i]).pubkey@) == Some(key)
            && nodes[i].tpu_quic == Some(addr)
}

/// A validator is on the map exactly where it is announced with an address, and it is there
/// with one of the addresses that are announced for it.
pub proof fn law_map_is_what_is_announced(nodes: Seq<ClusterNode>, key: Seq<u8>)
    ensures
        topology(nodes).contains_key(key) <==> exists|addr: SocketAddr| announces(nodes, key, addr),
        topology(nodes).contains_key(key) ==> announces(nodes, key, topology(nodes)[key]),
    decreases nodes.len(),
{
    if nodes.len() > 0 {
        let fewer = nodes.drop_last();
        let last = nodes.last();
        law_map_is_what_is_announced(fewer, key);
        assert(last == nodes[nodes.len() - 1]);
        assert forall|addr: SocketAddr| #[trigger]
            announces(nodes, key, addr) <==> announces(fewer, key, addr) || (pubkey_of(last.pubkey@)
                == Some(key) && last.tpu_quic == Some(addr)) by {
            if announces(fewer, key, addr) {
                let i = choose|i: int|
                    0 <= i < fewer.len() && pubkey_of((#[trigger] fewer[i]).pubkey@) == Some(key)
                        && fewer[i].tpu_quic == Some(addr);
                assert(nodes[i] == fewer[i]);
            }
            if announces(nodes, key, addr) {
                let i = choose|i: int|
                    0 <= i < nodes.len() && pubkey_of((#[trigger] nodes[i]).pubkey@) == Some(key)
                        && nodes[i].tpu_quic == Some(addr);
                if i < fewer.len() {
                    assert(nodes[i] == fewer[i]);
                }
            }
        }
        if topology(fewer).contains_key(key) {
            assert(announces(nodes, key, topology(fewer)[key]));
        }
        if pubkey_of(last.pubkey@) == Some(key) && last.tpu_quic is Some {
            assert(announces(nodes, key, last.tpu_quic->0));
        }
        if exists|addr: SocketAddr| announces(nodes, key, addr) {
            let addr = choose|addr: SocketAddr| announces(nodes, key, addr);
            if announces(fewer, key, addr) {
                assert(topology(fewer).contains_key(key));
            }
        }
    } else {
        assert(forall|addr: SocketAddr| !announces(nodes, key, addr));
    }
}

/// A transaction for a slot goes to an address that its leader announced: where the schedule
/// and the map were taken over from the cluster, a target belongs to a validator that claims
/// the slot, is not blocked, and is announced there.
pub proof fn law_target_belongs_to_the_leader(
    c: CartographerView,
    blocked: Set<Seq<u8>>,
    start: int,
    entries: Seq<LeaderSlots>,
    nodes: Seq<ClusterNode>,
    slot: u64,
)
    requires
        0 <= start,
        slots_fit(start, entries),
        c.schedule == leaders(start, entries),
        c.nodes == topology(nodes),
    ensures
        target(c, blocked, slot as int) matches Some(addr) ==> exists|key: Seq<u8>|
            claims(start, entries, slot, key) && !blocked.contains(key) && announces(
                nodes,
                key,
                addr,
            ),
{
    if target(c, blocked, slot as int) is Some {
        let key = c.schedule[slot];
        law_leader_claims_its_slot(start, entries, slot);
        law_map_is_what_is_announced(nodes, key);
        assert(claims(start, entries, slot, key));
    }
}

/// A slot has a target exactly where it has a leader that is not blocked and is on the map, and
/// then the target is the address of that leader on the map; how far the slot is from the current
/// one does not matter.
pub proof fn law_unblocked_leader_on_the_map_is_the_target(
    c: CartographerView,
    blocked: Set<Seq<u8>>,
    slot: u64,
    leader: Seq<u8>,
    addr: SocketAddr,
)
    requires
        c.schedule.contains_pair(slot, leader),
        c.nodes.contains_pair(leader, addr),
        !blocked.contains(leader),
    ensures
        target(c, blocked, slot as int) == Some(addr),
        forall|current: u64, epoch: u64| #[trigger]
            target(
                CartographerView { slot: current, epoch, ..c },
                blocked,
                slot as int,
            ) == Some(addr),
{
}

/// A slot without a leader, or whose leader is not on the map, has no target; nor has a number
/// that is not a slot.
pub proof fn law_no_leader_no_target(c: CartographerView, blocked: Set<Seq<u8>>, slot: int)
    ensures
        0 <= slot <= u64::MAX && !c.schedule.contains_key(slot as u64) ==> target(c, blocked, slot)
            is None,
        0 <= slot <= u64::MAX && c.schedule.contains_key(slot as u64) && !c.nodes.contains_key(
            c.schedule[slot as u64],
        ) ==> target(c, blocked, slot) is None,
        !(0 <= slot <= u64::MAX) ==> target(c, blocked, slot) is None,
{
}

/// The target of every slot that is looked ahead to is among the coming targets.
pub proof fn law_every_coming_leader_is_scouted(
    c: CartographerView,
    blocked: Set<Seq<u8>>,
    current: u64,
    ahead: nat,
    lookahead: nat,
    leader: Seq<u8>,
    addr: SocketAddr,
)
    requires
        1 <= ahead <= lookahead,
        current + ahead <= u64::MAX,
        c.schedule.contains_pair((current + ahead) as u64, leader),
        c.nodes.contains_pair(leader, addr),
        !blocked.contains(leader),
    ensures
        upcoming(c, blocked, current as int, lookahead).contains(addr),
{
    law_upcoming_are_the_targets(c, blocked, current as int, lookahead);
    law_unblocked_leader_on_the_map_is_the_target(
        c,
        blocked,
        (current + ahead) as u64,
        leader,
        addr,
    );
    assert(target(c, blocked, current as int + ahead as int) == Some(addr));
}

/// Looking one slot further adds the target of that slot at the end, unless it has none or is
/// there already; looking no slot ahead gives nothing.
pub proof fn law_one_slot_further_adds_its_target(
    c: CartographerView,
    blocked: Set<Seq<u8>>,
    slot: int,
    count: nat,
)
    ensures
        upcoming(c, blocked, slot, 0).len() == 0,
        ({
            let near = upcoming(c, blocked, slot, count);
            let far = upcoming(c, blocked, slot, count + 1);
            match target(c, blocked, slot + count + 1) {
                Some(addr) => if near.contains(addr) {
                    far == near
                } else {
                    far.len() == near.len() + 1 && far.last() == addr && far.drop_last() == near
                },
                None => far == near,
            }
        }),
{
    let near = upcoming(c, blocked, slot, count);
    match target(c, blocked, slot + count + 1) {
        Some(addr) => {
            assert(near.push(addr).drop_last() == near);
        },
        None => {},
    }
}

/// One more announcement with a key and an address puts the validator on the map at that address,
/// whatever was announced before, and changes nobody else; one without an address, or with a text
/// that is no key, changes nothing.
pub proof fn law_later_announcement_holds(
    nodes: Seq<ClusterNode>,
    node: ClusterNode,
    other: Seq<u8>,
)
    ensures
        ({
            let before = topology(nodes);
            let after = topology(nodes.push(node));
            match (pubkey_of(node.pubkey@), node.tpu_quic) {
                (Some(key), Some(addr)) => {
                    &&& after.contains_pair(key, addr)
                    &&& other != key ==> after.contains_key(other) == before.contains_key(other)
                        && (before.contains_key(other) ==> after[other] == before[other])
                },
                _ => after == before,
            }
        }),
        topology(Seq::empty()) == Map::<Seq<u8>, SocketAddr>::empty(),
{
    assert(nodes.push(node).drop_last() == nodes);
}

/// One more entry of the leader schedule gives its validator the slots that it claims, whatever
/// was claimed before, and leaves the other slots alone; an entry with a text that is no key
/// changes nothing.
pub proof fn law_later_entry_holds(
    start: int,
    entries: Seq<LeaderSlots>,
    entry: LeaderSlots,
    slot: u64,
)
    requires
        0 <= start,
        slots_fit(start, entries.push(entry)),
    ensures
        ({
            let before = leaders(start, entries);
            let after = leaders(start, entries.push(entry));
            let claimed = exists|j: int|
                0 <= j < entry.slots@.len() && start + #[trigger] entry.slots@[j] == slot;
            match pubkey_of(entry.pubkey@) {
                Some(key) => if claimed {
                    after.contains_pair(slot, key)
                } else {
                    &&& after.contains_key(slot) == before.contains_key(slot)
                    &&& before.contains_key(slot) ==> after[slot] == before[slot]
                },
                None => after == before,
            }
        }),
        leaders(start, Seq::empty()) == Map::<u64, Seq<u8>>::empty(),
{
    let all = entries.push(entry);
    assert(all.drop_last() == entries);
    if let Some(key) = pubkey_of(entry.pubkey@) {
        assert forall|j: int| 0 <= j < entry.slots@.len() implies start + #[trigger] entry.slots@[j]
            <= u64::MAX by {
            assert(start + all[entries.len() as int].slots@[j] <= u64::MAX);
        }
        lemma_with_leader(leaders(start, entries), start, entry.slots@, key, slot);
    }
}

/// A schedule is one of slot numbers exactly where the epoch does not begin before the first slot
/// and no slot of a validator is beyond the last slot number.
pub proof fn law_schedules_of_slot_numbers_fit(info: EpochInfo, entries: Seq<LeaderSlots>)
    ensures
        schedule_fits(info, entries) <==> {
            &&& info.slot_index <= info.absolute_slot
            &&& forall|i: int, j: int|
                #![trigger entries[i].slots@[j]]
                0 <= i < entries.len() && 0 <= j < entries[i].slots@.len() && pubkey_of(
                    entries[i].pubkey@,
                ) is Some ==> info.absolute_slot - info.slot_index + entries[i].slots@[j]
                    <= 0xffff_ffff_ffff_ffff
        },
{
}

/// The schedule is kept while the epoch stays, and asked for in every other epoch and in epoch 0.
pub proof fn law_schedule_is_kept_within_an_epoch(epoch: u64, other: u64)
    ensures
        epoch != 0 ==> is_known(epoch, epoch),
        !is_known(0, 0),
        epoch != other ==> !is_known(epoch, other),
{
}

/// Only a schedule that is taken over has to be one of slot numbers: where the epoch is known, or
/// where there is no schedule, nothing is asked of it.
pub proof fn law_only_new_schedules_must_fit(
    known: u64,
    info: EpochInfo,
    entries: Vec<LeaderSlots>,
    reason: String,
    other: Result<EpochInfo, String>,
    schedule: Result<Option<Vec<LeaderSlots>>, String>,
)
    ensures
        known == info.epoch && known != 0 ==> update_fits(known, Ok(info), schedule),
        schedule_fits(info, entries@) ==> update_fits(known, Ok(info), Ok(Some(entries))),
        update_fits(known, Err(reason), schedule),
        update_fits(known, other, Err(reason)),
        update_fits(known, other, Ok(None)),
{
}

} // verus!
