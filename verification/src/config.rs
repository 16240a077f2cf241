//! The configuration of the client.

use crate::error::SlipstreamError;
use crate::text::{opt_text, read_setting, setting};
use vstd::prelude::*;

verus! {

/// The configuration of the client.
#[derive(Debug, Clone)]
pub struct Config {
    pub rpc_url: String,
    pub geyser_url: Option<String>,
    pub rpc_poll_interval_ms: u64,
    pub scout_interval_ms: u64,
    pub scout_lookahead_slots: u64,
    pub monitor_interval_ms: u64,
    pub default_compute_unit_limit: u32,
    pub default_priority_fee: u64,
}

/// The values of the environment variables that configure the client, each where it is set.
#[derive(Debug)]
pub struct ConfigEnv {
    /// `SOLANA_RPC_URL`
    pub solana_rpc_url: Option<String>,
    /// `GEYSER_URL`
    pub geyser_url: Option<String>,
    /// `RPC_POLL_INTERVAL_MS`
    pub rpc_poll_interval_ms: Option<String>,
    /// `SCOUT_INTERVAL_MS`
    pub scout_interval_ms: Option<String>,
    /// `SCOUT_LOOKAHEAD_SLOTS`
    pub scout_lookahead_slots: Option<String>,
    /// `MONITOR_INTERVAL_MS`
    pub monitor_interval_ms: Option<String>,
    /// `DEFAULT_COMPUTE_UNIT_LIMIT`
    pub default_compute_unit_limit: Option<String>,
    /// `DEFAULT_PRIORITY_FEE`
    pub default_priority_fee: Option<String>,
}

/// The shortest interval, in milliseconds, that a configuration may ask for.
pub const MIN_INTERVAL_MS: u64 = 50;

/// What a [`Config`] holds.
pub struct ConfigView {
    pub rpc_url: Seq<char>,
    pub geyser_url: Option<Seq<char>>,
    pub rpc_poll_interval_ms: u64,
    pub scout_interval_ms: u64,
    pub scout_lookahead_slots: u64,
    pub monitor_interval_ms: u64,
    pub default_compute_unit_limit: u32,
    pub default_priority_fee: u64,
}

impl View for Config {
    type V = ConfigView;

    open spec fn view(&self) -> ConfigView {
        ConfigView {
            rpc_url: self.rpc_url@,
            geyser_url: opt_text(self.geyser_url),
            rpc_poll_interval_ms: self.rpc_poll_interval_ms,
            scout_interval_ms: self.scout_interval_ms,
            scout_lookahead_slots: self.scout_lookahead_slots,
            monitor_interval_ms: self.monitor_interval_ms,
            default_compute_unit_limit: self.default_compute_unit_limit,
            default_priority_fee: self.default_priority_fee,
        }
    }
}

/// What the environment `env` asks for. A number that is missing, or that does not read as
/// one of its type, has its default.
pub open spec fn configured(env: ConfigEnv) -> ConfigView {
    ConfigView {
        rpc_url: match env.solana_rpc_url {
            Some(url) => url@,
            None => "https://api.mainnet-beta.solana.com"@,
        },
        geyser_url: opt_text(env.geyser_url),
        rpc_poll_interval_ms: setting(opt_text(env.rpc_poll_interval_ms), u64::MAX, 400),
        scout_interval_ms: setting(opt_text(env.scout_interval_ms), u64::MAX, 1000),
        scout_lookahead_slots: setting(opt_text(env.scout_lookahead_slots), u64::MAX, 10),
        monitor_interval_ms: setting(opt_text(env.monitor_interval_ms), u64::MAX, 400),
        default_compute_unit_limit: setting(
            opt_text(env.default_compute_unit_limit),
            u32::MAX as u64,
            200_000,
        ) as u32,
        default_priority_fee: setting(opt_text(env.default_priority_fee), u64::MAX, 100_000),
    }
}

/// What is wrong with the configuration `c`, if anything is. Of several faults the first in
/// this order is named.
pub open spec fn config_fault(c: ConfigView) -> Option<Seq<char>> {
    if c.rpc_poll_interval_ms < MIN_INTERVAL_MS {
        Some("RPC_POLL_INTERVAL_MS must be >= 50"@)
    } else if c.scout_interval_ms < MIN_INTERVAL_MS {
        Some("SCOUT_INTERVAL_MS must be >= 50"@)
    } else if c.monitor_interval_ms < MIN_INTERVAL_MS {
        Some("MONITOR_INTERVAL_MS must be >= 50"@)
    } else if c.default_compute_unit_limit == 0 {
        Some("DEFAULT_COMPUTE_UNIT_LIMIT must be > 0"@)
    } else {
        None
    }
}

impl Config {
    /// The configuration that the environment asks for, if it can be used.
    pub fn from_env(env: ConfigEnv) -> (r: Result<Config, SlipstreamError>)
        ensures
            match config_fault(configured(env)) {
                Some(fault) => {
                    &&& r matches Err(SlipstreamError::ConfigValidation(message))
                    &&& message@ == fault
                },
                None => r matches Ok(config) && config@ == configured(env),
            },
    {
        let ghost asked = configured(env);
        let rpc_poll_interval_ms: u64 = read_setting(&env.rpc_poll_interval_ms, u64::MAX, 400);
        let scout_interval_ms: u64 = read_setting(&env.scout_interval_ms, u64::MAX, 1000);
        let scout_lookahead_slots: u64 = read_setting(&env.scout_lookahead_slots, u64::MAX, 10);
        let monitor_interval_ms: u64 = read_setting(&env.monitor_interval_ms, u64::MAX, 400);
        let default_compute_unit_limit: u32 = read_setting(
            &env.default_compute_unit_limit,
            u32::MAX as u64,
            200_000,
        ) as u32;
        let default_priority_fee: u64 = read_setting(&env.default_priority_fee, u64::MAX, 100_000);
        let config = Config {
            rpc_url: match env.solana_rpc_url {
                Some(url) => url,
                None => "https://api.mainnet-beta.solana.com".to_owned(),
            },
            geyser_url: env.geyser_url,
            rpc_poll_interval_ms,
            scout_interval_ms,
            scout_lookahead_slots,
            monitor_interval_ms,
            default_compute_unit_limit,
            default_priority_fee,
        };
        assert(config@ == asked);
        match config.validate() {
            Ok(()) => Ok(config),
            Err(e) => Err(e),
        }
    }

    /// Whether the configuration can be used.
    pub fn validate(&self) -> (r: Result<(), SlipstreamError>)
        ensures
            match config_fault(self@) {
                Some(fault) => {
                    &&& r matches Err(SlipstreamError::ConfigValidation(message))
                    &&& message@ == fault
                },
                None => r is Ok,
            },
    {
        if self.rpc_poll_interval_ms < MIN_INTERVAL_MS {
            return Err(
                SlipstreamError::ConfigValidation("RPC_POLL_INTERVAL_MS must be >= 50".to_owned()),
            );
        }
        if self.scout_interval_ms < MIN_INTERVAL_MS {
            return Err(
                SlipstreamError::ConfigValidation("SCOUT_INTERVAL_MS must be >= 50".to_owned()),
            );
        }
        if self.monitor_interval_ms < MIN_INTERVAL_MS {
            return Err(
                SlipstreamError::ConfigValidation("MONITOR_INTERVAL_MS must be >= 50".to_owned()),
            );
        }
        if self.default_compute_unit_limit == 0 {
            return Err(
                SlipstreamError::ConfigValidation(
                    "DEFAULT_COMPUTE_UNIT_LIMIT must be > 0".to_owned(),
                ),
            );
        }
        Ok(())
    }

    /// Puts the addresses that were given on the command line in place of those of the
    /// environment.
    pub fn override_urls(&mut self, rpc: Option<String>, geyser: Option<String>)
        ensures
            final(self)@ == (ConfigView {
                rpc_url: match rpc {
                    Some(url) => url@,
                    None => old(self)@.rpc_url,
                },
                geyser_url: match geyser {
                    Some(url) => Some(url@),
                    None => old(self)@.geyser_url,
                },
                ..old(self)@
            }),
    {
        if let Some(url) = rpc {
            self.rpc_url = url;
        }
        if let Some(url) = geyser {
            self.geyser_url = Some(url);
        }
    }

    /// The priority fee to pay: the one that was asked for, or the default.
    pub fn priority_fee(&self, asked: Option<u64>) -> (r: u64)
        ensures
            r == match asked {
                Some(fee) => fee,
                None => self@.default_priority_fee,
            },
    {
        match asked {
            Some(fee) => fee,
            None => self.default_priority_fee,
        }
    }
}

/// The configuration of an environment that sets nothing can be used.
pub proof fn law_defaults_are_valid(env: ConfigEnv)
    requires
        env.solana_rpc_url is None,
        env.geyser_url is None,
        env.rpc_poll_interval_ms is None,
        env.scout_interval_ms is None,
        env.scout_lookahead_slots is None,
        env.monitor_interval_ms is None,
        env.default_compute_unit_limit is None,
        env.default_priority_fee is None,
    ensures
        config_fault(configured(env)) is None,
{
}

/// An environment that gives a number in decimal gets that number, if it is in range.
pub proof fn law_setting_is_taken_over(n: u64, max: u64, default: u64)
    requires
        n <= max,
    ensures
        setting(Some(crate::text::decimal(n as nat)), max, default) == n,
{
    crate::text::law_decimal_reads_back(n as nat);
}

/// Each variable sets its own part of the configuration, within the range of that part, and a
/// variable that is not set leaves the default.
pub proof fn law_each_variable_sets_its_part(env: ConfigEnv)
    ensures
        env.solana_rpc_url matches Some(url) ==> configured(env).rpc_url == url@,
        env.solana_rpc_url is None ==> configured(env).rpc_url
            == "https://api.mainnet-beta.solana.com"@,
        env.geyser_url matches Some(url) ==> configured(env).geyser_url == Some(url@),
        env.geyser_url is None ==> configured(env).geyser_url is None,
        is_set_or(env.rpc_poll_interval_ms, 0xffff_ffff_ffff_ffff, 400, configured(env).rpc_poll_interval_ms),
        is_set_or(env.scout_interval_ms, 0xffff_ffff_ffff_ffff, 1000, configured(env).scout_interval_ms),
        is_set_or(env.scout_lookahead_slots, 0xffff_ffff_ffff_ffff, 10, configured(env).scout_lookahead_slots),
        is_set_or(env.monitor_interval_ms, 0xffff_ffff_ffff_ffff, 400, configured(env).monitor_interval_ms),
        is_set_or(env.default_compute_unit_limit, 0xffff_ffff, 200_000, configured(env).default_compute_unit_limit as u64),
        is_set_or(env.default_priority_fee, 0xffff_ffff_ffff_ffff, 100_000, configured(env).default_priority_fee),
{
}

/// Whether `n` is the number that `value` gives, if that is a number of at most `max`, and
/// `default` if there is no such number.
pub open spec fn is_set_or(value: Option<String>, max: nat, default: u64, n: u64) -> bool {
    match value {
        Some(s) => match crate::text::unsigned(s@) {
            Some(v) => n == v && v <= max || n == default && v > max,
            None => n == default,
        },
        None => n == default,
    }
}

/// A configuration can be used exactly where all three intervals are 50 milliseconds or more and
/// the compute budget is not 0; the fault that is named is one that it has.
pub proof fn law_only_usable_configurations_pass(c: ConfigView)
    ensures
        config_fault(c) is None <==> c.rpc_poll_interval_ms >= 50 && c.scout_interval_ms >= 50
            && c.monitor_interval_ms >= 50 && c.default_compute_unit_limit > 0,
        c.rpc_poll_interval_ms < 50 ==> config_fault(c) == Some(
            "RPC_POLL_INTERVAL_MS must be >= 50"@,
        ),
        c.rpc_poll_interval_ms >= 50 && c.scout_interval_ms < 50 ==> config_fault(c) == Some(
            "SCOUT_INTERVAL_MS must be >= 50"@,
        ),
        c.rpc_poll_interval_ms >= 50 && c.scout_interval_ms >= 50 && c.monitor_interval_ms < 50
            ==> config_fault(c) == Some("MONITOR_INTERVAL_MS must be >= 50"@),
        c.rpc_poll_interval_ms >= 50 && c.scout_interval_ms >= 50 && c.monitor_interval_ms >= 50
            && c.default_compute_unit_limit == 0 ==> config_fault(c) == Some(
            "DEFAULT_COMPUTE_UNIT_LIMIT must be > 0"@,
        ),
{
}

/// A configuration is seen as what its fields hold.
pub proof fn law_configuration_is_its_fields(c: Config)
    ensures
        c@.rpc_url == c.rpc_url@,
        c.geyser_url matches Some(url) ==> c@.geyser_url == Some(url@),
        c.geyser_url is None ==> c@.geyser_url is None,
        c@.rpc_poll_interval_ms == c.rpc_poll_interval_ms,
        c@.scout_interval_ms == c.scout_interval_ms,
        c@.scout_lookahead_slots == c.scout_lookahead_slots,
        c@.monitor_interval_ms == c.monitor_interval_ms,
        c@.default_compute_unit_limit == c.default_compute_unit_limit,
        c@.default_priority_fee == c.default_priority_fee,
{
}

} // verus!
