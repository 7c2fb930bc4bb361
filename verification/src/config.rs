//! The configuration of the updater and the rules by which it is completed
//! from what a source supplies.

use vstd::prelude::*;
use vstd::string::*;

verus! {

/// The settings of the updater, fixed at startup and read by every cycle.
#[derive(Debug, Clone, PartialEq, Eq)]
pub struct Config {
    /// When the cycles run, as a cron expression.
    pub cron: String,
    /// The name of the resolution strategy.
    pub ipv6_method: String,
    /// The address service that the External strategy asks.
    pub ip_service_url: String,
    /// The domain to update.
    pub duckdns_domain: String,
    /// The token that authorises the update. It is a secret.
    pub duckdns_token: String,
    /// The interface that the Local strategy reads, if one is named.
    pub hosts_interface: Option<String>,
}

/// A `Config` with its texts as character sequences.
pub struct ConfigView {
    pub cron: Seq<char>,
    pub ipv6_method: Seq<char>,
    pub ip_service_url: Seq<char>,
    pub duckdns_domain: Seq<char>,
    pub duckdns_token: Seq<char>,
    pub hosts_interface: Option<Seq<char>>,
}

/// An optional text as a character sequence.
pub open spec fn text_view(text: Option<String>) -> Option<Seq<char>> {
    match text {
        Some(t) => Some(t@),
        None => None,
    }
}

impl View for Config {
    type V = ConfigView;

    open spec fn view(&self) -> ConfigView {
        ConfigView {
            cron: self.cron@,
            ipv6_method: self.ipv6_method@,
            ip_service_url: self.ip_service_url@,
            duckdns_domain: self.duckdns_domain@,
            duckdns_token: self.duckdns_token@,
            hosts_interface: text_view(self.hosts_interface),
        }
    }
}

impl ConfigView {
    /// Domain and token are there.
    pub open spec fn wf(self) -> bool {
        self.duckdns_domain.len() > 0 && self.duckdns_token.len() > 0
    }
}

/// What one source, a file or the environment, supplies: each setting is
/// there or not.
#[derive(Debug, Clone, PartialEq, Eq)]
pub struct ConfigValues {
    pub cron: Option<String>,
    pub ipv6_method: Option<String>,
    pub ip_service_url: Option<String>,
    pub duckdns_domain: Option<String>,
    pub duckdns_token: Option<String>,
    pub hosts_interface: Option<String>,
}

/// `ConfigValues` with its texts as character sequences.
pub struct ConfigValuesView {
    pub cron: Option<Seq<char>>,
    pub ipv6_method: Option<Seq<char>>,
    pub ip_service_url: Option<Seq<char>>,
    pub duckdns_domain: Option<Seq<char>>,
    pub duckdns_token: Option<Seq<char>>,
    pub hosts_interface: Option<Seq<char>>,
}

impl View for ConfigValues {
    type V = ConfigValuesView;

    open spec fn view(&self) -> ConfigValuesView {
        ConfigValuesView {
            cron: text_view(self.cron),
            ipv6_method: text_view(self.ipv6_method),
            ip_service_url: text_view(self.ip_service_url),
            duckdns_domain: text_view(self.duckdns_domain),
            duckdns_token: text_view(self.duckdns_token),
            hosts_interface: text_view(self.hosts_interface),
        }
    }
}

/// A setting without which the updater must not start.
#[derive(Debug, Clone, Copy, PartialEq, Eq, Structural)]
pub enum ConfigError {
    MissingDomain,
    MissingToken,
}

/// The schedule used where none is configured: every five minutes.
pub open spec fn default_cron() -> Seq<char> {
    "0 */5 * * * *"@
}

/// The strategy used where none is configured.
pub open spec fn default_method() -> Seq<char> {
    "external"@
}

/// The address service used where none is configured.
pub open spec fn default_service_url() -> Seq<char> {
    "https://6.ipw.cn"@
}

/// The setting is absent or empty.
pub open spec fn is_missing(text: Option<Seq<char>>) -> bool {
    match text {
        Some(t) => t.len() == 0,
        None => true,
    }
}

/// The supplied text, or the default where none is supplied.
pub open spec fn text_or(text: Option<Seq<char>>, default: Seq<char>) -> Seq<char> {
    match text {
        Some(t) => t,
        None => default,
    }
}

/// The configuration that a source's values make: domain and token must be
/// there and not empty, the domain being looked at first; schedule, strategy
/// and address service have defaults.
pub open spec fn config_of(values: ConfigValuesView) -> Result<ConfigView, ConfigError> {
    if is_missing(values.duckdns_domain) {
        Err(ConfigError::MissingDomain)
    } else if is_missing(values.duckdns_token) {
        Err(ConfigError::MissingToken)
    } else {
        Ok(
            ConfigView {
                cron: text_or(values.cron, default_cron()),
                ipv6_method: text_or(values.ipv6_method, default_method()),
                ip_service_url: text_or(values.ip_service_url, default_service_url()),
                duckdns_domain: values.duckdns_domain.unwrap(),
                duckdns_token: values.duckdns_token.unwrap(),
                hosts_interface: values.hosts_interface,
            },
        )
    }
}

/// The configuration that a file's values and the environment's make
/// together: the file's where there is a file and its values make one, the
/// environment's otherwise.
pub open spec fn config_of_sources(
    file: Option<ConfigValuesView>,
    env: ConfigValuesView,
) -> Result<ConfigView, ConfigError> {
    match file {
        Some(values) => if config_of(values) is Ok {
            config_of(values)
        } else {
            config_of(env)
        },
        None => config_of(env),
    }
}

/// The outcome of completing a configuration, with its texts as character
/// sequences.
pub open spec fn config_result(r: Result<Config, ConfigError>) -> Result<ConfigView, ConfigError> {
    match r {
        Ok(config) => Ok(config@),
        Err(e) => Err(e),
    }
}

/// The optional file values, as character sequences.
pub open spec fn file_view(file: Option<ConfigValues>) -> Option<ConfigValuesView> {
    match file {
        Some(values) => Some(values@),
        None => None,
    }
}

/// Tells whether a setting is absent or empty.
fn missing(text: &Option<String>) -> (b: bool)
    ensures
        b == is_missing(text_view(*text)),
{
    match text {
        Some(t) => t.as_str().is_empty(),
        None => true,
    }
}

/// The supplied text, or the default where none is supplied.
fn or_default(text: Option<String>, default: &str) -> (out: String)
    ensures
        out@ == text_or(text_view(text), default@),
{
    match text {
        Some(t) => t,
        None => String::from_str(default),
    }
}

impl Config {
    /// Completes the values of one source to a configuration.
    pub fn from_values(values: ConfigValues) -> (r: Result<Config, ConfigError>)
        ensures
            config_result(r) == config_of(values@),
            r is Ok ==> r.unwrap()@.wf(),
    {
        if missing(&values.duckdns_domain) {
            return Err(ConfigError::MissingDomain);
        }
        if missing(&values.duckdns_token) {
            return Err(ConfigError::MissingToken);
        }
        let ConfigValues {
            cron,
            ipv6_method,
            ip_service_url,
            duckdns_domain,
            duckdns_token,
            hosts_interface,
        } = values;
        Ok(
            Config {
                cron: or_default(cron, "0 */5 * * * *"),
                ipv6_method: or_default(ipv6_method, "external"),
                ip_service_url: or_default(ip_service_url, "https://6.ipw.cn"),
                duckdns_domain: duckdns_domain.unwrap(),
                duckdns_token: duckdns_token.unwrap(),
                hosts_interface,
            },
        )
    }

    /// Makes the configuration from the values of the configuration file,
    /// where there is one, and those of the environment.
    pub fn from_sources(file: Option<ConfigValues>, env: ConfigValues) -> (r: Result<
        Config,
        ConfigError,
    >)
        ensures
            config_result(r) == config_of_sources(file_view(file), env@),
            r is Ok ==> r.unwrap()@.wf(),
    {
        match file {
            Some(values) => {
                match Config::from_values(values) {
                    Ok(config) => Ok(config),
                    Err(_) => Config::from_values(env),
                }
            },
            None => Config::from_values(env),
        }
    }
}

} // verus!
