use ddns_updater::canonical::{find_zero_run, format_groups, format_hex, format_ipv6};
use ddns_updater::ipv6::{check_dotted_quad, check_hextet, is_ipv6_text, scan_run};
use ddns_updater::text::to_chars;

fn platform_accepts(text: &str) -> bool {
    let parsed = text.parse().ok().map(|ip| if_addrs::Ifv6Addr {
        ip,
        netmask: ip,
        broadcast: None,
    });
    parsed.is_some()
}

fn platform_text(groups: [u16; 8]) -> String {
    let entry = if_addrs::Ifv6Addr {
        ip: groups.into(),
        netmask: groups.into(),
        broadcast: None,
    };
    entry.ip.to_string()
}

const VALID: [&str; 22] = [
    "2001:db8::1",
    "::",
    "::1",
    "1::",
    "1:2:3:4:5:6:7:8",
    "1:2:3:4:5:6:7::",
    "::2:3:4:5:6:7:8",
    "1::3:4:5:6:7:8",
    "1:2:3::6:7:8",
    "::ffff:192.0.2.1",
    "1:2:3:4:5:6:1.2.3.4",
    "::1.2.3.4",
    "1::255.255.255.255",
    "fe80::1",
    "ABCD:ef01::",
    "0:0:0:0:0:0:0:0",
    "0000:0000:0000:0000:0000:0000:0000:0001",
    "2001:0db8:85a3::8a2e:0370:7334",
    "ffff:ffff:ffff:ffff:ffff:ffff:ffff:ffff",
    "1:2:3:4:5::0.0.0.0",
    "a:b:c:d:e:f:0:1",
    "::a:b:c:d:e:10.20.30.40",
];

const INVALID: [&str; 40] = [
    "",
    " ",
    "1.2.3.4",
    "192.0.2.1",
    "garbage",
    "not an address",
    "1:2:3:4:5:6:7",
    "1:2:3:4:5:6:7:8:9",
    "1::2::3",
    ":::",
    "::::",
    ":",
    "12345::",
    "1:2:3:4:5:6:7:8::",
    "::1:2:3:4:5:6:7:8",
    "1:2:3:4::5:6:7:8",
    ":1::2",
    "1::2:",
    ":1:2:3:4:5:6:7:8",
    "1:2:3:4:5:6:7:8:",
    "::256.1.1.1",
    "::01.1.1.1",
    "::1.2.3",
    "::1.2.3.4.5",
    "::1..2.3",
    "::.1.2.3",
    "::1.2.3.",
    "1.2.3.4::",
    "1.2.3.4::1",
    "1:2:3:4:5:6:7:1.2.3.4",
    "1:2:3:4:5:1.2.3.4",
    "::1.2.3.4:5",
    "g::",
    "::g",
    "2001:db8::1%eth0",
    " ::1",
    "::1 ",
    "::1\n",
    "2001:db8::\u{ff11}",
    "[::1]",
];

#[test]
fn valid_literals_are_accepted() {
    for text in VALID {
        assert!(is_ipv6_text(text), "{}", text);
    }
}

#[test]
fn invalid_literals_are_refused() {
    for text in INVALID {
        assert!(!is_ipv6_text(text), "{:?}", text);
    }
}

#[test]
fn literals_are_judged_as_the_platform_judges_them() {
    for text in VALID {
        assert_eq!(is_ipv6_text(text), platform_accepts(text), "{}", text);
    }
    for text in INVALID {
        assert_eq!(is_ipv6_text(text), platform_accepts(text), "{:?}", text);
    }
}

#[test]
fn hextets_have_one_to_four_hex_digits() {
    let chars = to_chars("0:abcd:ABCDE:xyz::");
    assert!(check_hextet(&chars, 0, 1));
    assert!(check_hextet(&chars, 2, 6));
    assert!(!check_hextet(&chars, 7, 12));
    assert!(check_hextet(&chars, 7, 11));
    assert!(!check_hextet(&chars, 13, 16));
    assert!(!check_hextet(&chars, 3, 3));
    assert!(!check_hextet(&chars, 1, 3));
}

#[test]
fn dotted_quads_have_four_octets() {
    for (text, expected) in [
        ("0.0.0.0", true),
        ("255.255.255.255", true),
        ("192.0.2.1", true),
        ("10.20.30.249", true),
        ("256.0.0.0", false),
        ("1.2.3", false),
        ("1.2.3.4.5", false),
        ("01.2.3.4", false),
        ("1.2.3.04", false),
        ("1.2.3.a", false),
        ("1.2..4", false),
        ("", false),
        ("1234", false),
        ("1.2.3.260", false),
        ("1.2.3.300", false),
        ("199.200.249.250", true),
    ] {
        let chars = to_chars(text);
        assert_eq!(check_dotted_quad(&chars, 0, chars.len()), expected, "{}", text);
    }
}

#[test]
fn runs_are_counted_in_groups() {
    for (text, allow_v4, expected) in [
        ("1", true, Some(1)),
        ("1:2:3", false, Some(3)),
        ("1:2:3:4:5:6:7:8:9:a", false, Some(10)),
        ("1:2:1.2.3.4", true, Some(4)),
        ("1:2:1.2.3.4", false, None),
        ("1.2.3.4", true, Some(2)),
        ("1.2.3.4:1", true, None),
        ("", true, None),
        ("1:", true, None),
        (":1", true, None),
        ("1::2", true, None),
        ("12345", true, None),
    ] {
        let chars = to_chars(text);
        assert_eq!(scan_run(&chars, 0, chars.len(), allow_v4), expected, "{}", text);
    }
}

#[test]
fn groups_are_written_without_leading_zeros() {
    assert_eq!(format_hex(0), "0");
    assert_eq!(format_hex(0xf), "f");
    assert_eq!(format_hex(0x10), "10");
    assert_eq!(format_hex(0xdb8), "db8");
    assert_eq!(format_hex(0x2001), "2001");
    assert_eq!(format_hex(0xffff), "ffff");
    assert_eq!(format_hex(0x0a0b), "a0b");
    let groups = [0x2001, 0xdb8, 0, 0x1, 0xabcd, 0, 0, 0x10];
    assert_eq!(format_groups(&groups, 0, 8), "2001:db8:0:1:abcd:0:0:10");
    assert_eq!(format_groups(&groups, 2, 5), "0:1:abcd");
    assert_eq!(format_groups(&groups, 3, 3), "");
}

#[test]
fn the_leftmost_longest_zero_run_is_found() {
    assert_eq!(find_zero_run(&[0; 8]), (0, 8));
    assert_eq!(find_zero_run(&[1, 2, 3, 4, 5, 6, 7, 8]).1, 0);
    assert_eq!(find_zero_run(&[1, 0, 3, 4, 5, 6, 7, 8]), (1, 1));
    assert_eq!(find_zero_run(&[0, 0, 0, 1, 0, 0, 0, 2]), (0, 3));
    assert_eq!(find_zero_run(&[0, 0, 1, 0, 0, 0, 0, 0]), (3, 5));
    assert_eq!(find_zero_run(&[1, 0, 0, 2, 0, 0, 0, 3]), (4, 3));
}

#[test]
fn canonical_text_has_expected_form() {
    assert_eq!(format_ipv6(&[0x2001, 0xdb8, 0, 0, 0, 0, 0, 1]), "2001:db8::1");
    assert_eq!(format_ipv6(&[0; 8]), "::");
    assert_eq!(format_ipv6(&[0, 0, 0, 0, 0, 0, 0, 1]), "::1");
    assert_eq!(format_ipv6(&[1, 0, 0, 0, 0, 0, 0, 0]), "1::");
    assert_eq!(format_ipv6(&[1, 0, 0, 2, 0, 0, 0, 3]), "1:0:0:2::3");
    assert_eq!(format_ipv6(&[1, 0, 2, 0, 3, 0, 4, 0]), "1:0:2:0:3:0:4:0");
    assert_eq!(format_ipv6(&[0, 0, 1, 0, 0, 0, 0, 0]), "0:0:1::");
    assert_eq!(format_ipv6(&[0, 0, 0, 1, 0, 0, 0, 2]), "::1:0:0:0:2");
    assert_eq!(format_ipv6(&[0, 0, 0, 0, 0, 0xffff, 0xc000, 0x0201]), "::ffff:192.0.2.1");
    assert_eq!(format_ipv6(&[0, 0, 0, 0, 0, 0xffff, 0, 0xffff]), "::ffff:0.0.255.255");
    assert_eq!(format_ipv6(&[0xfe80, 0, 0, 0, 0xabcd, 0xef, 0x1, 0x10]), "fe80::abcd:ef:1:10");
    assert_eq!(
        format_ipv6(&[0xffff, 0xffff, 0xffff, 0xffff, 0xffff, 0xffff, 0xffff, 0xffff]),
        "ffff:ffff:ffff:ffff:ffff:ffff:ffff:ffff"
    );
}

#[test]
fn canonical_text_is_the_platforms_and_a_literal() {
    let mut seed: u64 = 0x9e3779b97f4a7c15;
    let mut groups = [0u16; 8];
    for round in 0..4000 {
        for slot in groups.iter_mut() {
            seed = seed.wrapping_mul(6364136223846793005).wrapping_add(1442695040888963407);
            let pick = (seed >> 33) as u32;
            *slot = match pick % 4 {
                0 | 1 => 0,
                2 => (pick >> 8) as u16 & 0xff,
                _ => (pick >> 8) as u16,
            };
        }
        if round % 16 == 0 {
            groups[0] = 0;
            groups[1] = 0;
            groups[2] = 0;
            groups[3] = 0;
            groups[4] = 0;
            groups[5] = 0xffff;
        }
        let text = format_ipv6(&groups);
        assert_eq!(text, platform_text(groups), "{:?}", groups);
        assert!(is_ipv6_text(&text), "{}", text);
    }
}
