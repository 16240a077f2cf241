//! The errors of the crate.

use crate::text::joined;
use vstd::prelude::*;

verus! {

/// What can go wrong, with the reason in words.
#[derive(Debug)]
pub enum SlipstreamError {
    /// The configuration, or what it points at, cannot be used.
    ConfigValidation(String),
    /// Reading or writing failed.
    Io(String),
    /// A connection could not be made or used.
    Connection(String),
    /// The client certificate could not be made.
    Certificate(String),
    /// The QUIC transport failed.
    Transport(String),
    /// Writing to a stream failed.
    Write(String),
    /// A stream was closed already.
    ClosedStream(String),
    /// An endpoint is not a usable address.
    InvalidUri(String),
    /// The Geyser stream failed.
    Geyser(String),
    /// A channel inside the process failed.
    Channel(String),
}

impl SlipstreamError {
    /// What the error says of itself before the reason.
    pub open spec fn heading(&self) -> Seq<char> {
        match self {
            SlipstreamError::ConfigValidation(_) => "invalid config: "@,
            SlipstreamError::Io(_) => "io error: "@,
            SlipstreamError::Connection(_) => "connection error: "@,
            SlipstreamError::Certificate(_) => "certificate error: "@,
            SlipstreamError::Transport(_) => "transport error: "@,
            SlipstreamError::Write(_) => "write error: "@,
            SlipstreamError::ClosedStream(_) => "stream closed: "@,
            SlipstreamError::InvalidUri(_) => "invalid uri: "@,
            SlipstreamError::Geyser(_) => "geyser error: "@,
            SlipstreamError::Channel(_) => "channel error: "@,
        }
    }

    /// The reason that the error carries.
    pub open spec fn reason(&self) -> Seq<char> {
        match self {
            SlipstreamError::ConfigValidation(s) => s@,
            SlipstreamError::Io(s) => s@,
            SlipstreamError::Connection(s) => s@,
            SlipstreamError::Certificate(s) => s@,
            SlipstreamError::Transport(s) => s@,
            SlipstreamError::Write(s) => s@,
            SlipstreamError::ClosedStream(s) => s@,
            SlipstreamError::InvalidUri(s) => s@,
            SlipstreamError::Geyser(s) => s@,
            SlipstreamError::Channel(s) => s@,
        }
    }

    /// The error in words.
    pub fn message(&self) -> (r: String)
        ensures
            r@ == self.heading() + self.reason(),
    {
        match self {
            SlipstreamError::ConfigValidation(s) => joined("invalid config: ", s.as_str()),
            SlipstreamError::Io(s) => joined("io error: ", s.as_str()),
            SlipstreamError::Connection(s) => joined("connection error: ", s.as_str()),
            SlipstreamError::Certificate(s) => joined("certificate error: ", s.as_str()),
            SlipstreamError::Transport(s) => joined("transport error: ", s.as_str()),
            SlipstreamError::Write(s) => joined("write error: ", s.as_str()),
            SlipstreamError::ClosedStream(s) => joined("stream closed: ", s.as_str()),
            SlipstreamError::InvalidUri(s) => joined("invalid uri: ", s.as_str()),
            SlipstreamError::Geyser(s) => joined("geyser error: ", s.as_str()),
            SlipstreamError::Channel(s) => joined("channel error: ", s.as_str()),
        }
    }
}

/// Each error says what kind it is, whatever its reason, and carries the reason unchanged.
pub proof fn law_error_names_its_kind_and_reason(s: String)
    ensures
        SlipstreamError::ConfigValidation(s).heading() == "invalid config: "@,
        SlipstreamError::Io(s).heading() == "io error: "@,
        SlipstreamError::Connection(s).heading() == "connection error: "@,
        SlipstreamError::Certificate(s).heading() == "certificate error: "@,
        SlipstreamError::Transport(s).heading() == "transport error: "@,
        SlipstreamError::Write(s).heading() == "write error: "@,
        SlipstreamError::ClosedStream(s).heading() == "stream closed: "@,
        SlipstreamError::InvalidUri(s).heading() == "invalid uri: "@,
        SlipstreamError::Geyser(s).heading() == "geyser error: "@,
        SlipstreamError::Channel(s).heading() == "channel error: "@,
        SlipstreamError::ConfigValidation(s).reason() == s@,
        SlipstreamError::Io(s).reason() == s@,
        SlipstreamError::Connection(s).reason() == s@,
        SlipstreamError::Certificate(s).reason() == s@,
        SlipstreamError::Transport(s).reason() == s@,
        SlipstreamError::Write(s).reason() == s@,
        SlipstreamError::ClosedStream(s).reason() == s@,
        SlipstreamError::InvalidUri(s).reason() == s@,
        SlipstreamError::Geyser(s).reason() == s@,
        SlipstreamError::Channel(s).reason() == s@,
{
}

} // verus!
