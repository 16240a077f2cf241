use slipstream::config::{Config, ConfigEnv, MIN_INTERVAL_MS};
use slipstream::error::SlipstreamError;

fn nothing() -> ConfigEnv {
    ConfigEnv {
        solana_rpc_url: None,
        geyser_url: None,
        rpc_poll_interval_ms: None,
        scout_interval_ms: None,
        scout_lookahead_slots: None,
        monitor_interval_ms: None,
        default_compute_unit_limit: None,
        default_priority_fee: None,
    }
}

fn set(s: &str) -> Option<String> {
    Some(s.to_string())
}

fn fault(env: ConfigEnv) -> String {
    match Config::from_env(env).unwrap_err() {
        SlipstreamError::ConfigValidation(s) => s,
        e => panic!("{:?}", e),
    }
}

#[test]
fn defaults_of_an_empty_environment() {
    let c = Config::from_env(nothing()).unwrap();
    assert_eq!(c.rpc_url, "https://api.mainnet-beta.solana.com");
    assert_eq!(c.geyser_url, None);
    assert_eq!(c.rpc_poll_interval_ms, 400);
    assert_eq!(c.scout_interval_ms, 1000);
    assert_eq!(c.scout_lookahead_slots, 10);
    assert_eq!(c.monitor_interval_ms, 400);
    assert_eq!(c.default_compute_unit_limit, 200_000);
    assert_eq!(c.default_priority_fee, 100_000);
}

#[test]
fn settings_are_taken_over() {
    let c = Config::from_env(ConfigEnv {
        solana_rpc_url: set("http://a"),
        geyser_url: set("http://b"),
        rpc_poll_interval_ms: set("50"),
        scout_interval_ms: set("51"),
        scout_lookahead_slots: set("0"),
        monitor_interval_ms: set("+52"),
        default_compute_unit_limit: set("4294967295"),
        default_priority_fee: set("18446744073709551615"),
    })
    .unwrap();
    assert_eq!(c.rpc_url, "http://a");
    assert_eq!(c.geyser_url.as_deref(), Some("http://b"));
    assert_eq!(c.rpc_poll_interval_ms, 50);
    assert_eq!(c.scout_interval_ms, 51);
    assert_eq!(c.scout_lookahead_slots, 0);
    assert_eq!(c.monitor_interval_ms, 52);
    assert_eq!(c.default_compute_unit_limit, u32::MAX);
    assert_eq!(c.default_priority_fee, u64::MAX);
}

#[test]
fn unreadable_numbers_have_their_default() {
    let c = Config::from_env(ConfigEnv {
        rpc_poll_interval_ms: set(""),
        scout_interval_ms: set("1 000"),
        scout_lookahead_slots: set("-1"),
        monitor_interval_ms: set("4e2"),
        default_compute_unit_limit: set("4294967296"),
        default_priority_fee: set("18446744073709551616"),
        ..nothing()
    })
    .unwrap();
    assert_eq!(c.rpc_poll_interval_ms, 400);
    assert_eq!(c.scout_interval_ms, 1000);
    assert_eq!(c.scout_lookahead_slots, 10);
    assert_eq!(c.monitor_interval_ms, 400);
    assert_eq!(c.default_compute_unit_limit, 200_000);
    assert_eq!(c.default_priority_fee, 100_000);
}

#[test]
fn each_fault_is_named() {
    assert_eq!(MIN_INTERVAL_MS, 50);
    let env = ConfigEnv { rpc_poll_interval_ms: set("49"), scout_interval_ms: set("0"), ..nothing() };
    assert_eq!(fault(env), "RPC_POLL_INTERVAL_MS must be >= 50");
    let env = ConfigEnv { scout_interval_ms: set("49"), monitor_interval_ms: set("1"), ..nothing() };
    assert_eq!(fault(env), "SCOUT_INTERVAL_MS must be >= 50");
    let env = ConfigEnv { monitor_interval_ms: set("49"), ..nothing() };
    assert_eq!(fault(env), "MONITOR_INTERVAL_MS must be >= 50");
    let env = ConfigEnv { default_compute_unit_limit: set("0"), ..nothing() };
    assert_eq!(fault(env), "DEFAULT_COMPUTE_UNIT_LIMIT must be > 0");
}

#[test]
fn command_line_comes_first() {
    let mut c = Config::from_env(ConfigEnv { geyser_url: set("g"), ..nothing() }).unwrap();
    c.override_urls(None, None);
    assert_eq!(c.rpc_url, "https://api.mainnet-beta.solana.com");
    assert_eq!(c.geyser_url.as_deref(), Some("g"));
    c.override_urls(set("r"), set("h"));
    assert_eq!(c.rpc_url, "r");
    assert_eq!(c.geyser_url.as_deref(), Some("h"));
    assert_eq!(c.priority_fee(None), 100_000);
    assert_eq!(c.priority_fee(Some(0)), 0);
    assert!(c.validate().is_ok());
}
