//! Hosts and addresses of listeners, and when they are in each other's way.

use agent_mail_guard::hosts::{
    extract_socket_host, is_loopback_host, is_wildcard_host, listener_host_matches_request,
    normalize_bind_host_for_socket, normalize_connect_host_for_health_check, normalize_socket_host,
    strip_brackets, wildcard_request_conflicts_with_listener,
};
use agent_mail_guard::ip::{canonicalize_ip, parse_canonical_ip, parse_ipv4, Ip};

#[test]
fn normalize_connect_host_for_health_check_preserves_ipv6_loopback() {
    assert_eq!(normalize_connect_host_for_health_check("0.0.0.0"), "127.0.0.1");
    assert_eq!(normalize_connect_host_for_health_check("::"), "[::1]");
    assert_eq!(normalize_connect_host_for_health_check("[::]"), "[::1]");
}

#[test]
fn other_hosts_are_connected_to_as_they_are() {
    assert_eq!(normalize_connect_host_for_health_check("10.0.0.7"), "10.0.0.7");
    assert_eq!(normalize_connect_host_for_health_check("example.org"), "example.org");
}

#[test]
fn listener_host_matches_request_handles_conflicting_listener_hosts() {
    assert!(listener_host_matches_request("*", "127.0.0.1"));
    assert!(listener_host_matches_request("0.0.0.0", "127.0.0.1"));
    assert!(listener_host_matches_request("::", "127.0.0.1"));
    assert!(listener_host_matches_request("::ffff:127.0.0.1", "127.0.0.1"));
    assert!(listener_host_matches_request("127.0.0.1", "localhost"));
    assert!(!listener_host_matches_request("127.0.0.2", "127.0.0.1"));
    assert!(listener_host_matches_request("127.0.0.1", "0.0.0.0"));
    assert!(!listener_host_matches_request("127.0.0.1", "::"));
    assert!(!listener_host_matches_request("::1", "0.0.0.0"));
    assert!(listener_host_matches_request("::1", "::"));
}

#[test]
fn wildcard_host_detection_normalizes_configured_host_text() {
    assert!(is_wildcard_host(" 0.0.0.0 "));
    assert!(is_wildcard_host(" [::] "));
    assert!(is_wildcard_host("*"));
    assert!(!is_wildcard_host("127.0.0.1"));
    assert!(!is_wildcard_host("::1"));
}

#[test]
fn a_host_is_in_its_own_way() {
    for host in ["127.0.0.1", "10.1.2.3", "::1", "fe80::1", "example.org"] {
        assert!(listener_host_matches_request(host, host), "{host}");
    }
}

#[test]
fn conflicts_are_mutual_but_for_wildcards() {
    assert!(listener_host_matches_request("0.0.0.0", "::1"));
    assert!(!listener_host_matches_request("::1", "0.0.0.0"));
    let hosts = [
        "127.0.0.1", "10.1.2.3", "::1", "fe80::1", "localhost", "LocalHost", "a.org", "[ 0.0.0.0 ]",
    ];
    for a in hosts {
        for b in hosts {
            assert_eq!(
                listener_host_matches_request(a, b),
                listener_host_matches_request(b, a),
                "{a} {b}"
            );
        }
    }
}

#[test]
fn loopback_hosts_are_known_by_their_address() {
    assert!(is_loopback_host("127.8.9.10"));
    assert!(is_loopback_host("::1"));
    assert!(!is_loopback_host("10.0.0.1"));
    assert!(!is_loopback_host("localhost"));
}

#[test]
fn a_wildcard_request_meets_listeners_of_its_family() {
    assert!(wildcard_request_conflicts_with_listener("127.0.0.1", "0.0.0.0"));
    assert!(!wildcard_request_conflicts_with_listener("::1", "0.0.0.0"));
    assert!(wildcard_request_conflicts_with_listener("::1", "::"));
}

#[test]
fn endpoints_give_their_host() {
    assert_eq!(extract_socket_host("127.0.0.1:8765"), Some("127.0.0.1".to_string()));
    assert_eq!(extract_socket_host("[::1]:8765"), Some("::1".to_string()));
    assert_eq!(extract_socket_host("*:8765"), Some("*".to_string()));
}

#[test]
fn brackets_are_for_addresses_in_urls() {
    assert_eq!(strip_brackets("[::1]"), "::1");
    assert_eq!(strip_brackets("::1"), "::1");
    assert_eq!(normalize_bind_host_for_socket(" [::1] "), "::1");
    assert_eq!(normalize_socket_host(" [::1] "), "::1");
}

#[test]
fn addresses_are_read_like_the_standard_library_reads_them() {
    for text in [
        "0.0.0.0", "1.2.3.4", "255.255.255.255", "256.1.1.1", "1.2.3", "01.2.3.4", "1.2.3.4.5", "",
        "1..2.3", "a.b.c.d", "1.2.3.4 ",
    ] {
        let expected = text.parse::<core::net::Ipv4Addr>().ok().map(u32::from);
        assert_eq!(parse_ipv4(text), expected, "{text:?}");
    }
    for text in [
        "::", "::1", "1::", "1:2:3:4:5:6:7:8", "1:2:3:4:5:6:7", "::ffff:1.2.3.4", "fe80::1%eth0",
        "1::2::3", "12345::", "g::", "1:2:3:4:5:6:7::", ":1", "1:", "::1.2.3.4", "1.2.3.4", "x",
        "1:2:3:4:5:6:1.2.3.4", "2001:DB8::A",
    ] {
        let expected = text.parse::<core::net::IpAddr>().ok().map(|ip| match ip.to_canonical() {
            core::net::IpAddr::V4(v4) => Ip::V4(u32::from(v4)),
            core::net::IpAddr::V6(v6) => Ip::V6(u128::from(v6)),
        });
        assert_eq!(parse_canonical_ip(text), expected, "{text:?}");
    }
}

#[test]
fn mapped_addresses_are_those_they_map_to() {
    assert_eq!(canonicalize_ip(Ip::V6(0xffff_0102_0304)), Ip::V4(0x0102_0304));
    assert_eq!(canonicalize_ip(Ip::V6(1)), Ip::V6(1));
    assert_eq!(canonicalize_ip(Ip::V4(7)), Ip::V4(7));
}

#[test]
fn a_text_with_very_many_colons_is_no_address() {
    let text = "1:".repeat(300_000);
    assert_eq!(parse_canonical_ip(&text), None);
    assert!(!is_wildcard_host(&text));
    assert_eq!(parse_canonical_ip(&format!("::{text}")), None);
}
