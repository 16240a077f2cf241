use slipstream::error::SlipstreamError;

#[test]
fn each_error_says_what_it_is() {
    let r = || "why".to_string();
    assert_eq!(SlipstreamError::ConfigValidation(r()).message(), "invalid config: why");
    assert_eq!(SlipstreamError::Io(r()).message(), "io error: why");
    assert_eq!(SlipstreamError::Connection(r()).message(), "connection error: why");
    assert_eq!(SlipstreamError::Certificate(r()).message(), "certificate error: why");
    assert_eq!(SlipstreamError::Transport(r()).message(), "transport error: why");
    assert_eq!(SlipstreamError::Write(r()).message(), "write error: why");
    assert_eq!(SlipstreamError::ClosedStream(r()).message(), "stream closed: why");
    assert_eq!(SlipstreamError::InvalidUri(r()).message(), "invalid uri: why");
    assert_eq!(SlipstreamError::Geyser(r()).message(), "geyser error: why");
    assert_eq!(SlipstreamError::Channel(r()).message(), "channel error: why");
}
