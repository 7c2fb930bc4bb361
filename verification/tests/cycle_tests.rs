use ddns_updater::config::Config;
use ddns_updater::cycle::{
    advance, step, CycleAction, CycleEvent, CycleState, FailureReason, UpdateOutcome,
    REQUEST_TIMEOUT_SECS,
};
use ddns_updater::interfaces::{Interface, InterfaceAddress};
use ddns_updater::publisher::PublishError;
use ddns_updater::resolver::{Ipv6Method, ResolveError};

fn config(method: &str, interface: Option<&str>) -> Config {
    Config {
        cron: "0 */5 * * * *".to_string(),
        ipv6_method: method.to_string(),
        ip_service_url: "https://ip.example".to_string(),
        duckdns_domain: "myhost".to_string(),
        duckdns_token: "SECRET-REDACTED".to_string(),
        hosts_interface: interface.map(|name| name.to_string()),
    }
}

fn run_external(config: &Config, body: &str, status: u16) -> UpdateOutcome {
    let (state, action) = advance(config, CycleState::Idle, CycleEvent::Tick);
    assert!(matches!(action, CycleAction::FetchAddress { .. }));
    let (state, action) = advance(config, state, CycleEvent::AddressBody(body.to_string()));
    let (state, action) = match action {
        CycleAction::SendUpdate { .. } => advance(
            config,
            state,
            CycleEvent::ProviderReplied { status, body: "reply".to_string() },
        ),
        other => (state, other),
    };
    assert_eq!(state, CycleState::Idle);
    match action {
        CycleAction::Finish(outcome) => outcome,
        other => panic!("the cycle did not finish: {:?}", other),
    }
}

#[test]
fn a_cycle_with_a_good_address_and_status_200_succeeds() {
    let config = config("external", None);
    let (state, action) = advance(&config, CycleState::Idle, CycleEvent::Tick);
    assert_eq!(state, CycleState::Resolving(Ipv6Method::External));
    assert_eq!(
        action,
        CycleAction::FetchAddress { url: "https://ip.example".to_string(), fallback: false }
    );
    let (state, action) =
        advance(&config, state, CycleEvent::AddressBody("2001:db8::1".to_string()));
    assert_eq!(state, CycleState::Publishing);
    assert_eq!(
        action,
        CycleAction::SendUpdate {
            url: "https://www.duckdns.org/update?domains=myhost&token=SECRET-REDACTED&ipv6=2001:db8::1&verbose=true"
                .to_string(),
            domain: "myhost".to_string(),
            address: "2001:db8::1".to_string(),
        }
    );
    let (state, action) = advance(
        &config,
        state,
        CycleEvent::ProviderReplied { status: 200, body: "OK".to_string() },
    );
    assert_eq!(state, CycleState::Idle);
    assert_eq!(action, CycleAction::Finish(UpdateOutcome::Success));
}

#[test]
fn a_cycle_with_status_403_fails_with_a_publish_error() {
    let config = config("external", None);
    let outcome = run_external(&config, "2001:db8::1", 403);
    assert_eq!(
        outcome,
        UpdateOutcome::Failure(FailureReason::Publish(PublishError::ProviderRejected {
            status: 403,
            body: "reply".to_string(),
        }))
    );
    assert!(!outcome.is_success());
    let (state, _) = advance(&config, CycleState::Idle, CycleEvent::Tick);
    assert_eq!(state, CycleState::Resolving(Ipv6Method::External));
}

#[test]
fn repeated_cycles_end_alike() {
    let config = config("external", None);
    for (body, status) in [("2001:db8::1", 200), ("2001:db8::1", 403), ("garbage", 200)] {
        let first = run_external(&config, body, status);
        for _ in 0..5 {
            assert_eq!(run_external(&config, body, status), first);
        }
    }
}

#[test]
fn an_invalid_body_ends_the_cycle_without_a_request() {
    let config = config("external", None);
    let outcome = run_external(&config, "192.0.2.1", 200);
    assert_eq!(
        outcome,
        UpdateOutcome::Failure(FailureReason::Resolve(ResolveError::InvalidAddress))
    );
}

#[test]
fn an_unknown_method_falls_back_to_the_address_service_with_a_flag() {
    let config = config("dns", None);
    let (state, action) = advance(&config, CycleState::Idle, CycleEvent::Tick);
    assert_eq!(state, CycleState::Resolving(Ipv6Method::External));
    assert_eq!(
        action,
        CycleAction::FetchAddress { url: "https://ip.example".to_string(), fallback: true }
    );
}

#[test]
fn the_local_method_resolves_from_the_listed_interfaces() {
    let config = config("local", Some("eth0"));
    let (state, action) = advance(&config, CycleState::Idle, CycleEvent::Tick);
    assert_eq!(state, CycleState::Resolving(Ipv6Method::Local));
    assert_eq!(action, CycleAction::ListInterfaces);
    let interfaces = vec![
        Interface {
            name: "lo".to_string(),
            loopback: true,
            address: InterfaceAddress::V6([0, 0, 0, 0, 0, 0, 0, 1]),
        },
        Interface {
            name: "eth0".to_string(),
            loopback: false,
            address: InterfaceAddress::V6([0x2001, 0xdb8, 0, 0, 0, 0, 0, 2]),
        },
    ];
    let (next, action) = advance(&config, state, CycleEvent::Interfaces(interfaces));
    assert_eq!(next, CycleState::Publishing);
    match action {
        CycleAction::SendUpdate { address, domain, .. } => {
            assert_eq!(address, "2001:db8::2");
            assert_eq!(domain, "myhost");
        },
        other => panic!("no update was asked for: {:?}", other),
    }
    let (next, action) = advance(&config, state, CycleEvent::Interfaces(Vec::new()));
    assert_eq!(next, CycleState::Idle);
    assert_eq!(
        action,
        CycleAction::Finish(UpdateOutcome::Failure(FailureReason::Resolve(
            ResolveError::InterfaceNotFound("eth0".to_string())
        )))
    );
}

#[test]
fn transport_failures_end_the_cycle() {
    let config = config("external", None);
    let (state, _) = advance(&config, CycleState::Idle, CycleEvent::Tick);
    let (next, action) = advance(&config, state, CycleEvent::ResolveFailed("timeout".to_string()));
    assert_eq!(next, CycleState::Idle);
    assert_eq!(
        action,
        CycleAction::Finish(UpdateOutcome::Failure(FailureReason::Resolve(
            ResolveError::Transport("timeout".to_string())
        )))
    );
    let (next, action) =
        advance(&config, CycleState::Publishing, CycleEvent::PublishFailed("refused".to_string()));
    assert_eq!(next, CycleState::Idle);
    assert_eq!(
        action,
        CycleAction::Finish(UpdateOutcome::Failure(FailureReason::Publish(
            PublishError::Transport("refused".to_string())
        )))
    );
}

#[test]
fn events_that_are_not_awaited_change_nothing() {
    let config = config("external", None);
    let resolving = CycleState::Resolving(Ipv6Method::External);
    for (state, event) in [
        (CycleState::Idle, CycleEvent::AddressBody("::1".to_string())),
        (CycleState::Idle, CycleEvent::ProviderReplied { status: 200, body: String::new() }),
        (CycleState::Idle, CycleEvent::PublishFailed(String::new())),
        (resolving, CycleEvent::Tick),
        (resolving, CycleEvent::Interfaces(Vec::new())),
        (resolving, CycleEvent::ProviderReplied { status: 200, body: String::new() }),
        (CycleState::Resolving(Ipv6Method::Local), CycleEvent::AddressBody("::1".to_string())),
        (CycleState::Publishing, CycleEvent::Tick),
        (CycleState::Publishing, CycleEvent::AddressBody("::1".to_string())),
        (CycleState::Publishing, CycleEvent::ResolveFailed(String::new())),
    ] {
        assert_eq!(advance(&config, state, event), (state, CycleAction::Ignore));
    }
}

#[test]
fn step_leaves_requests_over_the_network_to_the_driver() {
    let config = config("external", None);
    assert_eq!(
        step(&config, CycleState::Idle, CycleEvent::Tick),
        advance(&config, CycleState::Idle, CycleEvent::Tick)
    );
    assert_eq!(
        step(&config, CycleState::Publishing, CycleEvent::ProviderReplied {
            status: 204,
            body: String::new()
        }),
        (CycleState::Idle, CycleAction::Finish(UpdateOutcome::Success))
    );
}

#[test]
fn step_lists_the_interfaces_itself() {
    let config = config("local", Some("nonexistent_interface"));
    let (state, action) = step(&config, CycleState::Idle, CycleEvent::Tick);
    assert_eq!(state, CycleState::Idle);
    assert_eq!(
        action,
        CycleAction::Finish(UpdateOutcome::Failure(FailureReason::Resolve(
            ResolveError::InterfaceNotFound("nonexistent_interface".to_string())
        )))
    );
    let config = config_without_interface();
    let (state, action) = step(&config, CycleState::Idle, CycleEvent::Tick);
    match action {
        CycleAction::SendUpdate { address, .. } => {
            assert_eq!(state, CycleState::Publishing);
            assert!(address.contains(":"));
        },
        CycleAction::Finish(outcome) => {
            assert_eq!(state, CycleState::Idle);
            assert_eq!(
                outcome,
                UpdateOutcome::Failure(FailureReason::Resolve(ResolveError::NoAddressFound))
            );
        },
        other => panic!("unexpected action: {:?}", other),
    }
}

fn config_without_interface() -> Config {
    config("local", None)
}

#[test]
fn outcomes_say_what_happened() {
    assert_eq!(UpdateOutcome::Success.message(), "DDNS update completed successfully");
    assert!(UpdateOutcome::Success.is_success());
    assert_eq!(
        UpdateOutcome::Failure(FailureReason::Publish(PublishError::ProviderRejected {
            status: 403,
            body: "KO".to_string(),
        }))
        .message(),
        "Failed to update DDNS: DuckDNS update failed with status: 403"
    );
    assert_eq!(
        UpdateOutcome::Failure(FailureReason::Resolve(ResolveError::NoAddressFound)).message(),
        "Failed to update DDNS: No public IPv6 address found on any interface"
    );
    assert_eq!(REQUEST_TIMEOUT_SECS, 30);
}
