use ddns_updater::config::{Config, ConfigError, ConfigValues};

fn text(s: &str) -> Option<String> {
    Some(s.to_string())
}

fn nothing() -> ConfigValues {
    ConfigValues {
        cron: None,
        ipv6_method: None,
        ip_service_url: None,
        duckdns_domain: None,
        duckdns_token: None,
        hosts_interface: None,
    }
}

fn minimal(domain: &str, token: &str) -> ConfigValues {
    ConfigValues { duckdns_domain: text(domain), duckdns_token: text(token), ..nothing() }
}

#[test]
fn defaults_fill_what_is_not_supplied() {
    assert_eq!(
        Config::from_values(minimal("myhost", "SECRET-REDACTED")),
        Ok(Config {
            cron: "0 */5 * * * *".to_string(),
            ipv6_method: "external".to_string(),
            ip_service_url: "https://6.ipw.cn".to_string(),
            duckdns_domain: "myhost".to_string(),
            duckdns_token: "SECRET-REDACTED".to_string(),
            hosts_interface: None,
        })
    );
}

#[test]
fn supplied_values_are_kept() {
    let values = ConfigValues {
        cron: text("0 0 * * * *"),
        ipv6_method: text("local"),
        ip_service_url: text("https://ip.example"),
        duckdns_domain: text("myhost"),
        duckdns_token: text("SECRET-REDACTED"),
        hosts_interface: text("eth0"),
    };
    assert_eq!(
        Config::from_values(values),
        Ok(Config {
            cron: "0 0 * * * *".to_string(),
            ipv6_method: "local".to_string(),
            ip_service_url: "https://ip.example".to_string(),
            duckdns_domain: "myhost".to_string(),
            duckdns_token: "SECRET-REDACTED".to_string(),
            hosts_interface: text("eth0"),
        })
    );
}

#[test]
fn a_supplied_empty_setting_is_not_defaulted() {
    let values = ConfigValues { cron: text(""), ..minimal("myhost", "SECRET-REDACTED") };
    assert_eq!(Config::from_values(values).unwrap().cron, "");
}

#[test]
fn domain_and_token_are_required() {
    assert_eq!(Config::from_values(nothing()), Err(ConfigError::MissingDomain));
    assert_eq!(
        Config::from_values(ConfigValues { duckdns_domain: text("myhost"), ..nothing() }),
        Err(ConfigError::MissingToken)
    );
    assert_eq!(
        Config::from_values(ConfigValues { duckdns_token: text("SECRET-REDACTED"), ..nothing() }),
        Err(ConfigError::MissingDomain)
    );
}

#[test]
fn empty_domain_or_token_counts_as_missing() {
    assert_eq!(Config::from_values(minimal("", "SECRET-REDACTED")), Err(ConfigError::MissingDomain));
    assert_eq!(Config::from_values(minimal("myhost", "")), Err(ConfigError::MissingToken));
    assert_eq!(Config::from_values(minimal("", "")), Err(ConfigError::MissingDomain));
}

#[test]
fn the_file_takes_precedence() {
    let config = Config::from_sources(Some(minimal("filehost", "FILE")), minimal("envhost", "ENV"));
    assert_eq!(config.unwrap().duckdns_domain, "filehost");
}

#[test]
fn the_environment_is_read_without_a_usable_file() {
    let config = Config::from_sources(None, minimal("envhost", "ENV"));
    assert_eq!(config.unwrap().duckdns_domain, "envhost");
    let file = ConfigValues { cron: text("0 0 * * * *"), ..nothing() };
    let config = Config::from_sources(Some(file), minimal("envhost", "ENV")).unwrap();
    assert_eq!(config.duckdns_domain, "envhost");
    assert_eq!(config.cron, "0 */5 * * * *");
}

#[test]
fn no_source_with_domain_and_token_is_fatal() {
    assert_eq!(Config::from_sources(None, nothing()), Err(ConfigError::MissingDomain));
    assert_eq!(
        Config::from_sources(Some(minimal("filehost", "")), minimal("envhost", "")),
        Err(ConfigError::MissingToken)
    );
}
