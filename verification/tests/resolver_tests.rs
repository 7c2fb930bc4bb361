use ddns_updater::resolver::{
    address_from_body, select_method, text_is, Ipv6Method, MethodChoice, ResolveError,
};

#[test]
fn a_literal_body_is_returned_as_it_is() {
    for body in ["2001:db8::1", "::1", "::", "fe80::1:2:3:4", "::ffff:192.0.2.1", "1:2:3:4:5:6:7:8"] {
        assert_eq!(address_from_body(body), Ok(body.to_string()));
    }
}

#[test]
fn a_body_is_trimmed_before_it_is_judged() {
    assert_eq!(address_from_body("2001:db8::1\n"), Ok("2001:db8::1".to_string()));
    assert_eq!(address_from_body("  \t2001:db8::1 \r\n"), Ok("2001:db8::1".to_string()));
}

#[test]
fn a_body_that_is_no_literal_is_invalid() {
    for body in [
        "",
        "   ",
        "192.0.2.1",
        "garbage text",
        "<html>busy</html>",
        "2001:db8::1 2001:db8::2",
        "2001:db8:::1",
        "2001:db8::1/64",
    ] {
        assert_eq!(address_from_body(body), Err(ResolveError::InvalidAddress), "{:?}", body);
    }
}

#[test]
fn method_names_are_matched_exactly() {
    assert_eq!(
        select_method("external"),
        MethodChoice { method: Ipv6Method::External, recognised: true }
    );
    assert_eq!(select_method("local"), MethodChoice { method: Ipv6Method::Local, recognised: true });
    for name in ["", "Local", "EXTERNAL", "local ", "dns", "externa"] {
        assert_eq!(
            select_method(name),
            MethodChoice { method: Ipv6Method::External, recognised: false },
            "{:?}",
            name
        );
    }
    assert!(text_is("local", "local"));
    assert!(!text_is("local", "locale"));
    assert!(text_is("", ""));
}

#[test]
fn resolve_errors_say_what_happened() {
    assert_eq!(
        ResolveError::InvalidAddress.message(),
        "The address service did not return an IPv6 address"
    );
    assert_eq!(
        ResolveError::InterfaceNotFound("en0".to_string()).message(),
        "No IPv6 address found for interface 'en0'"
    );
    assert_eq!(
        ResolveError::NoAddressFound.message(),
        "No public IPv6 address found on any interface"
    );
    assert_eq!(
        ResolveError::Transport("timed out".to_string()).message(),
        "Address query failed: timed out"
    );
}
