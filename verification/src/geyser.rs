//! The Geyser stream, which tells the current slot: its endpoint, its token, what its messages
//! mean, and when to connect again.

use crate::cartographer::{Cartographer, CartographerView};
use crate::error::SlipstreamError;
use crate::metrics::Metrics;
use crate::text::{chars_of, joined, opt_text};
use std::str::FromStr;
use vstd::arithmetic::power2::pow2;
use vstd::prelude::*;

verus! {

/// The parts of a URI.
#[derive(Debug)]
pub struct UriParts {
    pub scheme: Option<String>,
    pub authority: Option<String>,
    pub path_and_query: Option<String>,
}

impl View for UriParts {
    type V = (Option<Seq<char>>, Option<Seq<char>>, Option<Seq<char>>);

    open spec fn view(&self) -> (Option<Seq<char>>, Option<Seq<char>>, Option<Seq<char>>) {
        (opt_text(self.scheme), opt_text(self.authority), opt_text(self.path_and_query))
    }
}

/// The scheme, the authority, and the path with the query, that `http::Uri` finds in `s`, each
/// where there is one; nothing where `s` is not a URI.
pub uninterp spec fn uri_parts(s: Seq<char>) -> Option<
    (Option<Seq<char>>, Option<Seq<char>>, Option<Seq<char>>),
>;

/// What `parts` hold.
pub open spec fn parts_view(parts: Option<UriParts>) -> Option<
    (Option<Seq<char>>, Option<Seq<char>>, Option<Seq<char>>),
> {
    match parts {
        Some(p) => Some(p@),
        None => None,
    }
}

/// `http::Uri::from_str`: reads a URI, and gives its `scheme_str`, its `authority` and its
/// `path_and_query`. What it finds depends on `s` alone; the grammar is not stated.
#[verifier::external_body]
fn parse_uri(s: &str) -> (r: Option<UriParts>)
    ensures
        parts_view(r) == uri_parts(s@),
{
    match http::Uri::from_str(s) {
        Ok(uri) => Some(UriParts {
            scheme: uri.scheme_str().map(|t| t.to_string()),
            authority: uri.authority().map(|t| t.as_str().to_string()),
            path_and_query: uri.path_and_query().map(|t| t.as_str().to_string()),
        }),
        Err(_) => None,
    }
}

/// `s` without the slashes it begins with.
pub open spec fn without_slashes(s: Seq<char>) -> Seq<char>
    decreases s.len(),
{
    if s.len() > 0 && s[0] == '/' {
        without_slashes(s.drop_first())
    } else {
        s
    }
}

/// `s` without the slashes it begins with.
fn strip_slashes(s: &str) -> (r: String)
    ensures
        r@ == without_slashes(s@),
{
    let chars: Vec<char> = chars_of(s);
    let mut from: usize = 0;
    assert(chars@.skip(0) == chars@);
    while from < chars.len() && chars[from] == '/'
        invariant
            from <= chars.len(),
            without_slashes(chars@.skip(from as int)) == without_slashes(chars@),
        decreases chars.len() - from,
    {
        assert(chars@.skip(from as int).drop_first() == chars@.skip(from + 1));
        from += 1;
    }
    let ghost rest = chars@.skip(from as int);
    let mut r: String = String::new();
    let mut i: usize = from;
    while i < chars.len()
        invariant
            from <= i <= chars.len(),
            r@ == chars@.subrange(from as int, i as int),
        decreases chars.len() - i,
    {
        r.push(chars[i]);
        i += 1;
        assert(r@ == chars@.subrange(from as int, i as int));
    }
    assert(r@ == rest);
    r
}

/// Where Geyser is reached, and the token to show there.
#[derive(Debug)]
pub struct GeyserEndpoint {
    pub url: String,
    pub token: Option<String>,
}

/// Whether a path carries a token: it is more than a slash.
pub open spec fn carries_token(path: Seq<char>) -> bool {
    vstd::utf8::encode_utf8(path).len() > 1 && path != "/"@
}

/// The endpoint that the address `url` with the given parts stands for, as its URL and its
/// token. A path is the token, and the URL is then without it; where the address has a path
/// but no authority there is none.
pub open spec fn endpoint(
    url: Seq<char>,
    parts: Option<(Option<Seq<char>>, Option<Seq<char>>, Option<Seq<char>>)>,
) -> Option<(Seq<char>, Option<Seq<char>>)> {
    match parts {
        Some((scheme, authority, Some(path))) => if carries_token(path) {
            match authority {
                Some(authority) => Some(
                    (
                        (match scheme {
                            Some(scheme) => scheme,
                            None => "https"@,
                        }) + "://"@ + authority,
                        Some(without_slashes(path)),
                    ),
                ),
                None => None,
            }
        } else {
            Some((url, None))
        },
        _ => Some((url, None)),
    }
}

/// Whether `r` is the endpoint that `url` with the given parts stands for, or the error of an
/// address that stands for none.
pub open spec fn is_endpoint(
    r: Result<GeyserEndpoint, SlipstreamError>,
    url: Seq<char>,
    parts: Option<(Option<Seq<char>>, Option<Seq<char>>, Option<Seq<char>>)>,
) -> bool {
    match endpoint(url, parts) {
        Some((clean, token)) => {
            &&& r matches Ok(e)
            &&& e.url@ == clean
            &&& opt_text(e.token) == token
        },
        None => {
            &&& r matches Err(SlipstreamError::InvalidUri(message))
            &&& message@ == "geyser url missing authority: "@ + url
        },
    }
}

/// The endpoint that the address `url`, whose parts are `parts`, stands for.
pub fn endpoint_from_parts(url: String, parts: Option<UriParts>) -> (r: Result<
    GeyserEndpoint,
    SlipstreamError,
>)
    ensures
        is_endpoint(r, url@, parts_view(parts)),
{
    if let Some(p) = parts {
        if let Some(path) = p.path_and_query {
            if path.as_str().as_bytes().len() > 1 && path != "/".to_owned() {
                let token: String = strip_slashes(path.as_str());
                let mut clean: String = match p.scheme {
                    Some(scheme) => scheme,
                    None => "https".to_owned(),
                };
                return match p.authority {
                    Some(authority) => {
                        clean.append("://");
                        clean.append(authority.as_str());
                        Ok(GeyserEndpoint { url: clean, token: Some(token) })
                    },
                    None => Err(
                        SlipstreamError::InvalidUri(
                            joined("geyser url missing authority: ", url.as_str()),
                        ),
                    ),
                };
            }
        }
    }
    Ok(GeyserEndpoint { url, token: None })
}

/// The endpoint that the address `url` stands for.
pub fn split_endpoint(url: String) -> (r: Result<GeyserEndpoint, SlipstreamError>)
    ensures
        is_endpoint(r, url@, uri_parts(url@)),
{
    let parts: Option<UriParts> = parse_uri(url.as_str());
    endpoint_from_parts(url, parts)
}

/// Whether `c` may stand in the value of a request header.
pub open spec fn is_header_char(c: char) -> bool {
    c == '\t' || (c as u32 >= 32 && c as u32 != 127)
}

/// `tonic::metadata::MetadataValue::<Ascii>::from_str`: whether it takes `token`. It does where
/// no character is a control character other than a tab.
#[verifier::external_body]
fn is_metadata_value(token: &str) -> (r: bool)
    ensures
        r == forall|i: int| 0 <= i < token@.len() ==> is_header_char(#[trigger] token@[i]),
{
    tonic::metadata::MetadataValue::<tonic::metadata::Ascii>::from_str(token).is_ok()
}

/// The token to put into the header `x-token` of each request, if there is one, or what is
/// wrong with it.
pub fn auth_token(token: &Option<String>) -> (r: Result<Option<String>, String>)
    ensures
        match token {
            Some(t) => if forall|i: int|
                0 <= i < t@.len() ==> is_header_char(#[trigger] t@[i]) {
                r matches Ok(Some(value)) && value@ == t@
            } else {
                r matches Err(message) && message@ == "invalid token format"@
            },
            None => r matches Ok(None),
        },
{
    match token {
        Some(t) => if is_metadata_value(t.as_str()) {
            Ok(Some(t.clone()))
        } else {
            Err("invalid token format".to_owned())
        },
        None => Ok(None),
    }
}

/// What is done to have the stream, and with it.
#[derive(Debug, Clone, Copy, PartialEq, Eq, Structural)]
pub enum GeyserStage {
    /// The URL is taken for an endpoint.
    Endpoint,
    /// TLS is set up.
    Tls,
    /// The connection is made.
    Connect,
    /// The request is handed to the connection.
    Request,
    /// The stream is asked for.
    Subscribe,
    /// A message is read from the stream.
    Message,
}

/// Whether `e` is the error of the stage `stage` that failed for the reason `reason`.
pub open spec fn is_geyser_error(e: SlipstreamError, stage: GeyserStage, reason: Seq<char>) -> bool {
    match stage {
        GeyserStage::Endpoint => {
            &&& e matches SlipstreamError::InvalidUri(message)
            &&& message@ == "invalid endpoint: "@ + reason
        },
        GeyserStage::Request => {
            &&& e matches SlipstreamError::Channel(message)
            &&& message@ == "failed to send request: "@ + reason
        },
        GeyserStage::Tls => {
            &&& e matches SlipstreamError::Geyser(message)
            &&& message@ == "tls config failed: "@ + reason
        },
        GeyserStage::Connect => {
            &&& e matches SlipstreamError::Geyser(message)
            &&& message@ == "connect failed: "@ + reason
        },
        GeyserStage::Subscribe => {
            &&& e matches SlipstreamError::Geyser(message)
            &&& message@ == "subscribe failed: "@ + reason
        },
        GeyserStage::Message => {
            &&& e matches SlipstreamError::Geyser(message)
            &&& message@ == "stream message failed: "@ + reason
        },
    }
}

/// The error of a stage that failed for the reason `reason`.
pub fn geyser_error(stage: GeyserStage, reason: &str) -> (r: SlipstreamError)
    ensures
        is_geyser_error(r, stage, reason@),
{
    match stage {
        GeyserStage::Endpoint => SlipstreamError::InvalidUri(joined("invalid endpoint: ", reason)),
        GeyserStage::Request => SlipstreamError::Channel(
            joined("failed to send request: ", reason),
        ),
        GeyserStage::Tls => SlipstreamError::Geyser(joined("tls config failed: ", reason)),
        GeyserStage::Connect => SlipstreamError::Geyser(joined("connect failed: ", reason)),
        GeyserStage::Subscribe => SlipstreamError::Geyser(joined("subscribe failed: ", reason)),
        GeyserStage::Message => SlipstreamError::Geyser(joined("stream message failed: ", reason)),
    }
}

/// A slot, as the stream reports it.
#[derive(Debug, Clone, Copy)]
pub struct SlotUpdate {
    pub slot: u64,
    /// How far the cluster is with the slot; 0 where it has just been processed.
    pub status: i32,
}

/// The slot that is current after a message of the stream, where `before` was current until
/// then. Only a slot that has just been processed changes it.
pub open spec fn slot_after(before: u64, update: Option<SlotUpdate>) -> u64 {
    match update {
        Some(u) => if u.status == 0 {
            u.slot
        } else {
            before
        },
        None => before,
    }
}

/// Takes note of a message of the stream. A message that is not about a slot has no update.
pub fn track_slot(cartographer: &mut Cartographer, update: Option<SlotUpdate>)
    ensures
        final(cartographer)@ == (CartographerView {
            slot: slot_after(old(cartographer)@.slot, update),
            ..old(cartographer)@
        }),
{
    if let Some(u) = update {
        if u.status == 0 {
            cartographer.update_slot(u.slot);
        }
    }
}

/// The longest time, in nanoseconds, that can be waited for.
pub const MAX_DELAY_NS: u128 = 18_446_744_073_709_551_615_999_999_999;

/// When to connect to Geyser again, and whether the first attempt was reported. Times are in
/// nanoseconds.
#[derive(Debug)]
pub struct GeyserMonitor {
    initial_delay: u128,
    max_delay: u128,
    retry_delay: u128,
    startup_pending: bool,
}

/// What a [`GeyserMonitor`] knows.
pub struct GeyserMonitorView {
    /// How long to wait after a connection was lost.
    pub initial_delay: u128,
    /// The longest that waits grow to.
    pub max_delay: u128,
    /// How long to wait next.
    pub retry_delay: u128,
    /// Whether the first attempt is still to be reported.
    pub startup_pending: bool,
}

impl View for GeyserMonitor {
    type V = GeyserMonitorView;

    closed spec fn view(&self) -> GeyserMonitorView {
        GeyserMonitorView {
            initial_delay: self.initial_delay,
            max_delay: self.max_delay,
            retry_delay: self.retry_delay,
            startup_pending: self.startup_pending,
        }
    }
}

/// The wait after a wait of `delay`: twice as long, but no longer than `max`.
pub open spec fn longer(delay: int, max: int) -> int {
    if 2 * delay <= max {
        2 * delay
    } else {
        max
    }
}

/// The wait after `failures` attempts in a row have failed since the wait was `initial`.
pub open spec fn wait_after(initial: int, max: int, failures: nat) -> int
    decreases failures,
{
    if failures == 0 {
        initial
    } else {
        longer(wait_after(initial, max, (failures - 1) as nat), max)
    }
}

/// Waits double with each failure until they reach the longest wait, and then stay there.
pub proof fn law_waits_double_up_to_the_longest(initial: int, max: int, failures: nat)
    requires
        0 <= initial,
        0 <= max,
        initial <= max || failures > 0,
    ensures
        wait_after(initial, max, failures) == if initial * pow2(failures) <= max {
            initial * pow2(failures)
        } else {
            max
        },
    decreases failures,
{
    if failures == 0 {
        vstd::arithmetic::power2::lemma2_to64();
        assert(initial * pow2(0) == initial) by (nonlinear_arith)
            requires
                pow2(0) == 1,
        ;
    } else {
        let fewer = (failures - 1) as nat;
        if initial <= max || fewer > 0 {
            law_waits_double_up_to_the_longest(initial, max, fewer);
        } else {
            vstd::arithmetic::power2::lemma2_to64();
        }
        vstd::arithmetic::power2::lemma_pow2_unfold(failures);
        assert(initial * pow2(failures) == 2 * (initial * pow2(fewer))) by (nonlinear_arith)
            requires
                pow2(failures) == 2 * pow2(fewer),
        ;
        assert(initial * pow2(fewer) >= 0) by (nonlinear_arith)
            requires
                initial >= 0,
        ;
    }
}

impl GeyserMonitor {
    /// A monitor that waits `initial_delay` first and `max_delay` at most.
    pub fn new(initial_delay: u128, max_delay: u128) -> (r: GeyserMonitor)
        ensures
            r@ == (GeyserMonitorView {
                initial_delay,
                max_delay,
                retry_delay: initial_delay,
                startup_pending: true,
            }),
    {
        GeyserMonitor { initial_delay, max_delay, retry_delay: initial_delay, startup_pending: true }
    }

    /// Takes note of how an attempt to connect went, and gives what is to be reported of it:
    /// the first attempt is, later ones are not. A connection resets the wait.
    pub fn connected(&mut self, attempt: &Result<(), SlipstreamError>) -> (report: Option<
        Result<(), SlipstreamError>,
    >)
        ensures
            final(self)@ == (GeyserMonitorView {
                retry_delay: if attempt is Ok {
                    old(self)@.initial_delay
                } else {
                    old(self)@.retry_delay
                },
                startup_pending: false,
                ..old(self)@
            }),
            if old(self)@.startup_pending {
                match attempt {
                    Ok(_) => report matches Some(Ok(_)),
                    Err(e) => {
                        &&& report matches Some(Err(SlipstreamError::Geyser(message)))
                        &&& message@ == e.heading() + e.reason()
                    },
                }
            } else {
                report is None
            },
    {
        let first: bool = self.startup_pending;
        self.startup_pending = false;
        if attempt.is_ok() {
            self.retry_delay = self.initial_delay;
        }
        if !first {
            return None;
        }
        match attempt {
            Ok(_) => Some(Ok(())),
            Err(e) => Some(Err(SlipstreamError::Geyser(e.message()))),
        }
    }

    /// How long to wait before the next attempt. The wait after that is longer.
    pub fn next_wait(&mut self) -> (wait: u128)
        requires
            2 * old(self)@.retry_delay <= MAX_DELAY_NS,
        ensures
            wait == old(self)@.retry_delay,
            final(self)@ == (GeyserMonitorView {
                retry_delay: longer(
                    old(self)@.retry_delay as int,
                    old(self)@.max_delay as int,
                ) as u128,
                ..old(self)@
            }),
    {
        let wait: u128 = self.retry_delay;
        self.retry_delay = if wait * 2 <= self.max_delay {
            wait * 2
        } else {
            self.max_delay
        };
        wait
    }

    /// How long the next wait is.
    pub fn retry_delay(&self) -> (r: u128)
        ensures
            r == self@.retry_delay,
    {
        self.retry_delay
    }
}

/// How the wait for the first connection to Geyser ended.
#[derive(Debug, Clone, Copy, PartialEq, Eq, Structural)]
pub enum Startup {
    /// The connection was made.
    Connected,
    /// The connection failed.
    Failed,
    /// The report of the first attempt was lost.
    SignalLost,
    /// The report of the first attempt did not come in time.
    TimedOut,
}

/// Counts the connections that have to be made again after the first attempt.
pub fn record_startup(startup: Startup, metrics: &mut Metrics)
    ensures
        final(metrics)@ == if startup == Startup::Connected {
            old(metrics)@
        } else {
            old(metrics)@.reconnected()
        },
{
    if startup != Startup::Connected {
        metrics.inc_geyser_reconnects();
    }
}

/// A message about a slot that has just been processed makes that slot the current one. A message
/// with any other status, and one that is not about a slot, leaves the current slot as it is.
pub proof fn law_only_processed_slots_move_the_clock(before: u64, slot: u64, status: i32)
    ensures
        slot_after(before, Some(SlotUpdate { slot, status: 0 })) == slot,
        status != 0 ==> slot_after(before, Some(SlotUpdate { slot, status })) == before,
        slot_after(before, None) == before,
{
}

/// A token is the path without the slashes at its beginning: only slashes were taken off, and the
/// token does not begin with one.
pub proof fn law_only_leading_slashes_are_taken_off(s: Seq<char>)
    ensures
        exists|i: int|
            #![trigger s.skip(i)]
            {
                &&& 0 <= i <= s.len()
                &&& without_slashes(s) == s.skip(i)
                &&& forall|k: int| 0 <= k < i ==> #[trigger] s[k] == '/'
                &&& i < s.len() ==> s[i] != '/'
            },
    decreases s.len(),
{
    if s.len() > 0 && s[0] == '/' {
        let t = s.drop_first();
        law_only_leading_slashes_are_taken_off(t);
        let j = choose|j: int|
            #![trigger t.skip(j)]
            {
                &&& 0 <= j <= t.len()
                &&& without_slashes(t) == t.skip(j)
                &&& forall|k: int| 0 <= k < j ==> #[trigger] t[k] == '/'
                &&& j < t.len() ==> t[j] != '/'
            };
        assert(t.skip(j) == s.skip(j + 1));
        assert forall|k: int| 0 <= k < j + 1 implies #[trigger] s[k] == '/' by {
            if k > 0 {
                assert(t[k - 1] == s[k]);
            }
        }
    } else {
        assert(s.skip(0) == s);
    }
}

proof fn lemma_width_of_char(c: char)
    ensures
        vstd::utf8::encode_scalar(c as u32).len() >= 1,
        vstd::utf8::encode_scalar(c as u32).len() == 1 <==> c <= '\x7f',
{
}

/// A path carries a token where it has two characters or more, or a single one that is not of
/// ASCII.
pub proof fn law_longer_paths_carry_tokens(path: Seq<char>)
    ensures
        carries_token(path) <==> path.len() >= 2 || (path.len() == 1 && path[0] > '\x7f'),
{
    reveal_strlit("/");
    if path.len() > 0 {
        let rest = path.drop_first();
        let first = vstd::utf8::encode_scalar(path[0] as u32);
        lemma_width_of_char(path[0]);
        assert(vstd::utf8::encode_utf8(path) == first + vstd::utf8::encode_utf8(rest));
        if rest.len() > 0 {
            lemma_width_of_char(rest[0]);
            assert(vstd::utf8::encode_utf8(rest) == vstd::utf8::encode_scalar(rest[0] as u32)
                + vstd::utf8::encode_utf8(rest.drop_first()));
        } else {
            assert(vstd::utf8::encode_utf8(rest).len() == 0);
        }
    } else {
        assert(vstd::utf8::encode_utf8(path).len() == 0);
    }
}

/// An address with an authority and a path that carries a token stands for its scheme, or `https`,
/// with its authority, and the token is the path without its leading slashes. An address without
/// such a path stands for itself, without a token. One with such a path and without an authority
/// is refused.
pub proof fn law_endpoint_is_the_address_without_the_token(
    r: Result<GeyserEndpoint, SlipstreamError>,
    url: Seq<char>,
    scheme: Option<Seq<char>>,
    authority: Option<Seq<char>>,
    path: Option<Seq<char>>,
)
    ensures
        is_endpoint(r, url, None) ==> r is Ok && r->Ok_0.url@ == url && r->Ok_0.token is None,
        is_endpoint(r, url, Some((scheme, authority, path))) ==> {
            let with_token = path is Some && carries_token(path->0);
            &&& !with_token ==> r is Ok && r->Ok_0.url@ == url && r->Ok_0.token is None
            &&& with_token && authority is Some ==> r is Ok && r->Ok_0.token is Some
                && r->Ok_0.token->0@ == without_slashes(path->0)
            &&& with_token && authority is Some && scheme is Some ==> r->Ok_0.url@ == scheme->0
                + "://"@ + authority->0
            &&& with_token && authority is Some && scheme is None ==> r->Ok_0.url@ == "https"@
                + "://"@ + authority->0
            &&& with_token && authority is None ==> r is Err && r->Err_0 is InvalidUri
                && r->Err_0.reason() == "geyser url missing authority: "@ + url
        },
{
    if let Ok(e) = r {
        if e.token is Some {
            crate::text::law_optional_text(e.token->0);
        }
    }
}

/// The parts of a URI are seen as what they hold.
pub proof fn law_parts_are_what_they_hold(p: UriParts)
    ensures
        parts_view(Some(p)) == Some(
            (opt_text(p.scheme), opt_text(p.authority), opt_text(p.path_and_query)),
        ),
        parts_view(None) is None,
{
}

/// A header may hold tabs and everything but control characters.
pub proof fn law_headers_hold_no_controls(c: char)
    ensures
        is_header_char(c) <==> c == '\t' || ((c as int) > 31 && (c as int) != 127),
{
}

/// A wait grows to twice its length, and no longer than the longest.
pub proof fn law_wait_is_the_smaller_of_double_and_longest(delay: int, max: int)
    ensures
        longer(delay, max) <= 2 * delay,
        longer(delay, max) <= max,
        longer(delay, max) == 2 * delay || longer(delay, max) == max,
{
}

/// The error of a stage that failed tells which stage it was, and carries the reason.
pub proof fn law_failed_stage_is_told(e: SlipstreamError, reason: Seq<char>)
    ensures
        is_geyser_error(e, GeyserStage::Endpoint, reason) ==> e is InvalidUri && e.reason()
            == "invalid endpoint: "@ + reason,
        is_geyser_error(e, GeyserStage::Tls, reason) ==> e is Geyser && e.reason()
            == "tls config failed: "@ + reason,
        is_geyser_error(e, GeyserStage::Connect, reason) ==> e is Geyser && e.reason()
            == "connect failed: "@ + reason,
        is_geyser_error(e, GeyserStage::Request, reason) ==> e is Channel && e.reason()
            == "failed to send request: "@ + reason,
        is_geyser_error(e, GeyserStage::Subscribe, reason) ==> e is Geyser && e.reason()
            == "subscribe failed: "@ + reason,
        is_geyser_error(e, GeyserStage::Message, reason) ==> e is Geyser && e.reason()
            == "stream message failed: "@ + reason,
{
}

} // verus!
