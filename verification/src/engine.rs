//! The QUIC connections that are kept open: which of them to use again, and when to make a new
//! one.

use crate::addr::SocketAddr;
use crate::error::SlipstreamError;
use crate::text::joined;
use dashmap::DashMap;
use vstd::prelude::*;

verus! {

/// `dashmap::DashMap`: a map that several tasks can use. What it holds is known by
/// [`cache_entries`].
#[verifier::external_type_specification]
#[verifier::external_body]
#[verifier::reject_recursive_types(K)]
#[verifier::reject_recursive_types(V)]
#[verifier::reject_recursive_types(S)]
pub struct ExDashMap<K, V, S>(dashmap::DashMap<K, V, S>);

/// What the map holds: the number of a connection for the parts of an address.
pub uninterp spec fn cache_entries(
    map: DashMap<(bool, u128, u16, u32, u32), u64>,
) -> Map<(bool, u128, u16, u32, u32), u64>;

/// `dashmap::DashMap::new`: a map without entries.
#[verifier::external_body]
fn cache_new() -> (r: DashMap<(bool, u128, u16, u32, u32), u64>)
    ensures
        (cache_entries(r) == Map::<(bool, u128, u16, u32, u32), u64>::empty()),
{
    DashMap::new()
}

/// `dashmap::DashMap::get`: the value of the entry for `key`, if there is one.
#[verifier::external_body]
fn cache_get(
    map: &DashMap<(bool, u128, u16, u32, u32), u64>,
    key: &(bool, u128, u16, u32, u32),
) -> (r: Option<u64>)
    ensures
        r == if cache_entries(*map).contains_key(*key) {
            Some(cache_entries(*map)[*key])
        } else {
            None
        },
{
    map.get(key).map(|value| *value)
}

/// `dashmap::DashMap::insert`: puts `value` into the entry for `key`.
#[verifier::external_body]
fn cache_insert(
    map: &mut DashMap<(bool, u128, u16, u32, u32), u64>,
    key: (bool, u128, u16, u32, u32),
    value: u64,
)
    ensures
        cache_entries(*final(map)) == cache_entries(*old(map)).insert(key, value),
{
    map.insert(key, value);
}

/// `dashmap::DashMap::remove`: takes the entry for `key` out, if there is one.
#[verifier::external_body]
fn cache_remove(
    map: &mut DashMap<(bool, u128, u16, u32, u32), u64>,
    key: &(bool, u128, u16, u32, u32),
)
    ensures
        cache_entries(*final(map)) == cache_entries(*old(map)).remove(*key),
{
    map.remove(key);
}

/// The parts of an address: whether it is an IPv6 address, the IP address, the port, the flow
/// information and the scope.
pub open spec fn addr_parts(addr: SocketAddr) -> (bool, u128, u16, u32, u32) {
    match addr {
        SocketAddr::V4 { ip4, port } => (false, ip4 as u128, port, 0, 0),
        SocketAddr::V6 { ip6, port, flowinfo, scope_id } => (true, ip6, port, flowinfo, scope_id),
    }
}

fn parts_of(addr: SocketAddr) -> (r: (bool, u128, u16, u32, u32))
    ensures
        r == addr_parts(addr),
{
    match addr {
        SocketAddr::V4 { ip4, port } => (false, ip4 as u128, port, 0, 0),
        SocketAddr::V6 { ip6, port, flowinfo, scope_id } => (true, ip6, port, flowinfo, scope_id),
    }
}

/// The connections that are kept, each under a number by which its owner knows it.
pub struct QuicEngine {
    connection_cache: DashMap<(bool, u128, u16, u32, u32), u64>,
}

impl View for QuicEngine {
    type V = Map<SocketAddr, u64>;

    /// The number of the connection that is kept for each address.
    closed spec fn view(&self) -> Map<SocketAddr, u64> {
        let entries = cache_entries(self.connection_cache);
        Map::new(
            |addr: SocketAddr| entries.contains_key(addr_parts(addr)),
            |addr: SocketAddr| entries[addr_parts(addr)],
        )
    }
}

/// The kept connection that a transaction to `addr` uses, where `open` says whether the one
/// that is kept for the address is still open.
pub open spec fn usable(kept: Map<SocketAddr, u64>, addr: SocketAddr, open: bool) -> Option<u64> {
    if kept.contains_key(addr) && open {
        Some(kept[addr])
    } else {
        None
    }
}

/// The connections that are kept after one for `addr` was asked for: a closed one is not.
pub open spec fn kept_after(
    kept: Map<SocketAddr, u64>,
    addr: SocketAddr,
    open: bool,
) -> Map<SocketAddr, u64> {
    if usable(kept, addr, open) is Some {
        kept
    } else {
        kept.remove(addr)
    }
}

impl QuicEngine {
    /// No connections.
    pub fn new() -> (r: QuicEngine)
        ensures
            r@ == Map::<SocketAddr, u64>::empty(),
    {
        let r = QuicEngine { connection_cache: cache_new() };
        assert(r@ =~= Map::<SocketAddr, u64>::empty());
        r
    }

    /// The connection that is kept for `addr`, open or not.
    pub fn cached(&self, addr: SocketAddr) -> (r: Option<u64>)
        ensures
            r == usable(self@, addr, true),
    {
        cache_get(&self.connection_cache, &parts_of(addr))
    }

    /// The connection to use for `addr`, where `open` says whether the one that is kept for it
    /// is still open. Where there is none to use, nothing is kept for the address any more and
    /// a connection has to be made.
    pub fn get_connection(&mut self, addr: SocketAddr, open: bool) -> (r: Option<u64>)
        ensures
            r == usable(old(self)@, addr, open),
            final(self)@ == kept_after(old(self)@, addr, open),
    {
        let cached: Option<u64> = self.cached(addr);
        if open && cached.is_some() {
            return cached;
        }
        cache_remove(&mut self.connection_cache, &parts_of(addr));
        assert(self@ =~= old(self)@.remove(addr));
        None
    }

    /// The connection to use for `addr`, as [`QuicEngine::get_connection`] gives it.
    pub fn get_connection_handle(&mut self, addr: SocketAddr, open: bool) -> (r: Option<u64>)
        ensures
            r == usable(old(self)@, addr, open),
            final(self)@ == kept_after(old(self)@, addr, open),
    {
        self.get_connection(addr, open)
    }

    /// Keeps the connection `id` that was made to `addr`.
    pub fn connected(&mut self, addr: SocketAddr, id: u64)
        ensures
            final(self)@ == old(self)@.insert(addr, id),
    {
        cache_insert(&mut self.connection_cache, parts_of(addr), id);
        assert(self@ =~= old(self)@.insert(addr, id));
    }
}

/// What is done to have a connection.
#[derive(Debug, Clone, Copy, PartialEq, Eq, Structural)]
pub enum ConnectStage {
    /// The local endpoint is bound.
    Bind,
    /// The handshake is begun.
    Begin,
    /// The handshake is completed.
    Handshake,
}

/// The error of a stage that failed for the reason `reason`.
pub fn connect_error(stage: ConnectStage, reason: &str) -> (r: SlipstreamError)
    ensures
        match stage {
            ConnectStage::Bind => {
                &&& r matches SlipstreamError::Connection(message)
                &&& message@ == "endpoint bind failed: "@ + reason@
            },
            ConnectStage::Begin => {
                &&& r matches SlipstreamError::Connection(message)
                &&& message@ == "connect failed: "@ + reason@
            },
            ConnectStage::Handshake => {
                &&& r matches SlipstreamError::Transport(message)
                &&& message@ == reason@
            },
        },
{
    match stage {
        ConnectStage::Bind => SlipstreamError::Connection(
            joined("endpoint bind failed: ", reason),
        ),
        ConnectStage::Begin => SlipstreamError::Connection(joined("connect failed: ", reason)),
        ConnectStage::Handshake => SlipstreamError::Transport(reason.to_owned()),
    }
}

/// What is done next to send a transaction over a connection.
#[derive(Debug, Clone, Copy, PartialEq, Eq, Structural)]
pub enum SendStep {
    /// Open a stream.
    Open,
    /// Write the transaction to the stream.
    Write,
    /// Finish the stream.
    Finish,
    /// Nothing: the transaction was sent.
    Sent,
}

/// The step after `step` has succeeded.
pub open spec fn send_step_after(step: SendStep) -> SendStep {
    match step {
        SendStep::Open => SendStep::Write,
        SendStep::Write => SendStep::Finish,
        _ => SendStep::Sent,
    }
}

/// Whether `e` is the error of the step `step` that failed for the reason `reason`.
pub open spec fn is_send_error(e: SlipstreamError, step: SendStep, reason: Seq<char>) -> bool {
    match step {
        SendStep::Open => {
            &&& e matches SlipstreamError::Connection(message)
            &&& message@ == "open stream failed: "@ + reason
        },
        SendStep::Write => e matches SlipstreamError::Write(message) && message@ == reason,
        _ => e matches SlipstreamError::ClosedStream(message) && message@ == reason,
    }
}

impl QuicEngine {
    /// What to do after `step`, the outcome of which is `outcome`. A step that failed ends the
    /// sending.
    pub fn send_transaction(step: SendStep, outcome: Result<(), String>) -> (r: Result<
        SendStep,
        SlipstreamError,
    >)
        requires
            step != SendStep::Sent,
        ensures
            match outcome {
                Ok(_) => r matches Ok(next) && next == send_step_after(step),
                Err(reason) => r matches Err(e) && is_send_error(e, step, reason@),
            },
    {
        match outcome {
            Ok(_) => match step {
                SendStep::Open => Ok(SendStep::Write),
                SendStep::Write => Ok(SendStep::Finish),
                _ => Ok(SendStep::Sent),
            },
            Err(reason) => match step {
                SendStep::Open => Err(
                    SlipstreamError::Connection(joined("open stream failed: ", reason.as_str())),
                ),
                SendStep::Write => Err(SlipstreamError::Write(reason)),
                _ => Err(SlipstreamError::ClosedStream(reason)),
            },
        }
    }
}

/// A connection that was made is used for its address as long as it is open, and not after
/// that; the connections to other addresses are left alone.
pub proof fn law_connection_is_used_while_open(
    kept: Map<SocketAddr, u64>,
    addr: SocketAddr,
    id: u64,
    other: SocketAddr,
)
    requires
        addr != other,
    ensures
        usable(kept.insert(addr, id), addr, true) == Some(id),
        kept_after(kept.insert(addr, id), addr, true) == kept.insert(addr, id),
        usable(kept.insert(addr, id), addr, false) is None,
        !kept_after(kept.insert(addr, id), addr, false).contains_key(addr),
        forall|open: bool| #[trigger]
            usable(kept_after(kept.insert(addr, id), addr, false), other, open) == usable(
                kept,
                other,
                open,
            ),
{
}

/// Two addresses are kept apart unless all their parts are the same.
pub proof fn law_addresses_are_kept_apart(a: SocketAddr, b: SocketAddr)
    ensures
        addr_parts(a) == addr_parts(b) ==> a == b,
{
}

/// A connection is used exactly where one is kept for the address and it is open, and it is the
/// one that is kept. Then everything is kept; otherwise what is kept for that address is given up,
/// and nothing else.
pub proof fn law_only_open_connections_are_used(
    kept: Map<SocketAddr, u64>,
    addr: SocketAddr,
    other: SocketAddr,
    open: bool,
)
    ensures
        kept.contains_key(addr) && open ==> usable(kept, addr, open) == Some(kept[addr])
            && kept_after(kept, addr, open) == kept,
        !kept.contains_key(addr) || !open ==> usable(kept, addr, open) is None && !kept_after(
            kept,
            addr,
            open,
        ).contains_key(addr),
        other != addr ==> kept_after(kept, addr, open).contains_key(other) == kept.contains_key(
            other,
        ) && (kept.contains_key(other) ==> kept_after(kept, addr, open)[other] == kept[other]),
{
}

/// A transaction is sent in three steps, in this order: a stream is opened, written and finished.
pub proof fn law_sending_is_open_write_finish()
    ensures
        send_step_after(SendStep::Open) == SendStep::Write,
        send_step_after(SendStep::Write) == SendStep::Finish,
        send_step_after(SendStep::Finish) == SendStep::Sent,
{
}

/// The error of a step that failed tells which step it was, and carries the reason.
pub proof fn law_failed_step_is_told(e: SlipstreamError, reason: Seq<char>)
    ensures
        is_send_error(e, SendStep::Open, reason) ==> e is Connection && e.reason()
            == "open stream failed: "@ + reason,
        is_send_error(e, SendStep::Write, reason) ==> e is Write && e.reason() == reason,
        is_send_error(e, SendStep::Finish, reason) ==> e is ClosedStream && e.reason() == reason,
{
}

} // verus!
