use protomux::endpoint::Endpoint;
use protomux::identifier::{Identifier, IdentifyResult, TrafficIdentifier};
use protomux::relay::{on_read, plan_relay, upstream_preamble, Action, CloseReason};
use protomux::proxy::{proxy_header, IpAddress, SocketAddress};
use protomux::sniff::{sniffing_registry, Registry, Route, SniffOutcome, SniffSession};
use protomux::{ssh, tls};

fn ep(addr: &str, port: u16) -> Endpoint {
    Endpoint {
        addr: addr.to_string(),
        port,
    }
}

fn standard() -> Registry {
    sniffing_registry(ep("ssh.local", 22), ep("tls.local", 443), true)
}

fn v4(a: u8, b: u8, c: u8, d: u8, port: u16) -> SocketAddress {
    SocketAddress {
        ip: IpAddress::V4([a, b, c, d]),
        port,
    }
}

fn v6(g: [u16; 8], port: u16) -> SocketAddress {
    SocketAddress {
        ip: IpAddress::V6(g),
        port,
    }
}

fn prefix_route(name: &str, sig: Vec<u8>) -> Route {
    Route {
        name: name.to_string(),
        identifier: Identifier::Prefix(sig),
        upstream: ep(name, 1),
        proxy_protocol: false,
    }
}

// A TLS 1.2 ClientHello record header announcing 512 bytes, then the start of
// the handshake message.
const CLIENT_HELLO_START: [u8; 9] = [0x16, 0x03, 0x01, 0x02, 0x00, 0x01, 0x00, 0x01, 0xfc];

#[test]
fn ssh_client_is_matched_with_its_bytes_as_handoff() {
    let reg = standard();
    let mut s = SniffSession::new(reg.len(), 4096);
    let input = b"SSH-2.0-OpenSSH_8.1\r\n";
    assert_eq!(s.feed(&reg, input), SniffOutcome::Matched(0));
    assert_eq!(s.handoff(), &input[..]);
    assert_eq!(ssh::identify(input), IdentifyResult::Positive);
}

#[test]
fn ssh_matches_once_four_bytes_arrive() {
    let reg = Registry {
        routes: vec![prefix_route("ssh", b"SSH-".to_vec())],
    };
    let mut s = SniffSession::new(reg.len(), 4096);
    assert_eq!(s.feed(&reg, b"SSH"), SniffOutcome::Pending);
    assert_eq!(s.feed(&reg, b"-2.0"), SniffOutcome::Matched(0));
    assert_eq!(s.handoff(), b"SSH-2.0");
}

#[test]
fn two_bytes_keep_the_session_open() {
    let reg = Registry {
        routes: vec![prefix_route("ssh", b"SSH-".to_vec())],
    };
    let mut s = SniffSession::new(reg.len(), 4096);
    assert_eq!(ssh::identify(b"SS"), IdentifyResult::NeedMoreData);
    assert_eq!(s.feed(&reg, b"SS"), SniffOutcome::Pending);
    assert_eq!(s.outcome(), SniffOutcome::Pending);
    assert_eq!(s.free_space(), 4094);
}

#[test]
fn short_input_is_never_rejected() {
    let reg = Registry {
        routes: vec![
            prefix_route("ssh", b"SSH-".to_vec()),
            prefix_route("web", b"GET ".to_vec()),
        ],
    };
    let mut s = SniffSession::new(reg.len(), 4096);
    assert_eq!(s.feed(&reg, b"G"), SniffOutcome::Pending);
    assert_eq!(s.feed(&reg, b"E"), SniffOutcome::Pending);
}

#[test]
fn http_request_is_rejected_by_both() {
    let reg = standard();
    let input = b"HTTP GET /";
    assert_eq!(ssh::identify(input), IdentifyResult::Negative);
    assert_eq!(tls::identify(input), IdentifyResult::Negative);
    let mut s = SniffSession::new(reg.len(), 4096);
    assert_eq!(s.feed(&reg, input), SniffOutcome::Rejected);
    let mut s = SniffSession::new(reg.len(), 4096);
    assert_eq!(
        on_read(&mut s, &reg, input),
        Action::Close(CloseReason::Rejected)
    );
}

#[test]
fn full_buffer_without_decision_is_abandoned() {
    let reg = Registry {
        routes: vec![prefix_route("long", vec![0u8; 5000])],
    };
    let mut s = SniffSession::new(reg.len(), 4096);
    let chunk = [0u8; 1024];
    assert_eq!(on_read(&mut s, &reg, &chunk), Action::ReadMore(3072));
    assert_eq!(s.feed(&reg, &chunk), SniffOutcome::Pending);
    assert_eq!(s.feed(&reg, &chunk), SniffOutcome::Pending);
    assert_eq!(s.feed(&reg, &chunk), SniffOutcome::Abandoned);
    assert_eq!(s.handoff().len(), 4096);
}

#[test]
fn abandoned_is_reported_as_close() {
    let reg = Registry {
        routes: vec![prefix_route("long", vec![7u8; 16])],
    };
    let mut s = SniffSession::new(reg.len(), 8);
    assert_eq!(
        on_read(&mut s, &reg, &[7u8; 8]),
        Action::Close(CloseReason::Abandoned)
    );
}

#[test]
fn empty_read_closes_the_stream() {
    let reg = Registry {
        routes: vec![prefix_route("ssh", b"SSH-".to_vec())],
    };
    let mut s = SniffSession::new(reg.len(), 4096);
    assert_eq!(on_read(&mut s, &reg, b"SS"), Action::ReadMore(4094));
    assert_eq!(
        on_read(&mut s, &reg, b""),
        Action::Close(CloseReason::StreamClosed)
    );
    assert_eq!(s.handoff(), b"SS");
}

#[test]
fn tls_record_start_is_positive() {
    assert_eq!(tls::identify(&CLIENT_HELLO_START), IdentifyResult::Positive);
    assert_eq!(tls::identify(&CLIENT_HELLO_START[..3]), IdentifyResult::NeedMoreData);
    assert_eq!(tls::identify(&CLIENT_HELLO_START[..4]), IdentifyResult::NeedMoreData);
    assert_eq!(tls::identify(&CLIENT_HELLO_START[..5]), IdentifyResult::Positive);
    let reg = standard();
    let mut s = SniffSession::new(reg.len(), 4096);
    assert_eq!(
        on_read(&mut s, &reg, &CLIENT_HELLO_START),
        Action::Relay(1)
    );
}

#[test]
fn two_bytes_keep_the_standard_session_open() {
    let reg = standard();
    let mut s = SniffSession::new(reg.len(), 4096);
    assert_eq!(s.feed(&reg, b"SS"), SniffOutcome::Pending);
    assert_eq!(on_read(&mut s, &reg, b"H"), Action::ReadMore(4093));
    assert_eq!(s.feed(&reg, b"-2.0"), SniffOutcome::Matched(0));
    assert_eq!(s.handoff(), b"SSH-2.0");
}

#[test]
fn short_tls_header_waits_for_the_rest() {
    let reg = standard();
    let mut s = SniffSession::new(reg.len(), 4096);
    assert_eq!(s.feed(&reg, &CLIENT_HELLO_START[..2]), SniffOutcome::Pending);
    assert_eq!(s.feed(&reg, &CLIENT_HELLO_START[2..4]), SniffOutcome::Pending);
    assert_eq!(s.feed(&reg, &CLIENT_HELLO_START[4..]), SniffOutcome::Matched(1));
    assert_eq!(s.handoff(), &CLIENT_HELLO_START[..]);
}

#[test]
fn later_route_that_accepts_sooner_wins_over_reads() {
    let reg = Registry {
        routes: vec![
            prefix_route("long", b"ABCD".to_vec()),
            prefix_route("short", b"AB".to_vec()),
        ],
    };
    let mut s = SniffSession::new(reg.len(), 64);
    assert_eq!(s.feed(&reg, b"A"), SniffOutcome::Pending);
    assert_eq!(s.feed(&reg, b"BCD"), SniffOutcome::Matched(0));
    let mut s = SniffSession::new(reg.len(), 64);
    assert_eq!(s.feed(&reg, b"A"), SniffOutcome::Pending);
    assert_eq!(s.feed(&reg, b"B"), SniffOutcome::Matched(1));
    assert_eq!(s.handoff(), b"AB");
}

#[test]
fn tls_wins_after_ssh_is_dropped() {
    let reg = standard();
    let mut s = SniffSession::new(reg.len(), 4096);
    assert_eq!(s.feed(&reg, &CLIENT_HELLO_START), SniffOutcome::Matched(1));
    assert_eq!(s.handoff(), &CLIENT_HELLO_START[..]);
}

#[test]
fn earlier_registered_wins_a_tie() {
    let reg = Registry {
        routes: vec![
            prefix_route("a", b"AB".to_vec()),
            prefix_route("b", b"A".to_vec()),
            prefix_route("c", b"ABC".to_vec()),
        ],
    };
    // "b" accepts at one byte, before "a" can: the shorter length wins.
    let mut s = SniffSession::new(reg.len(), 64);
    assert_eq!(s.feed(&reg, b"A"), SniffOutcome::Matched(1));
    // Both "a" and "b" accept two bytes: the first registered wins.
    let mut s = SniffSession::new(reg.len(), 64);
    assert_eq!(s.feed(&reg, b"AB"), SniffOutcome::Matched(0));
}

#[test]
fn rejected_candidate_is_not_reconsidered() {
    let reg = Registry {
        routes: vec![
            prefix_route("x", b"XY".to_vec()),
            prefix_route("long", b"AAAAAAAA".to_vec()),
        ],
    };
    let mut s = SniffSession::new(reg.len(), 64);
    assert_eq!(s.feed(&reg, b"A"), SniffOutcome::Pending);
    assert_eq!(s.feed(&reg, b"B"), SniffOutcome::Rejected);
}

#[test]
fn identifier_trait_dispatch() {
    let id = Identifier::Prefix(b"SSH-".to_vec());
    assert_eq!(id.identify(b"SSH-2.0"), IdentifyResult::Positive);
    assert_eq!(Identifier::TlsHandshake.identify(b"HTTP GET /"), IdentifyResult::Negative);
    assert_eq!(Identifier::TlsHandshake.identify(b"SS"), IdentifyResult::NeedMoreData);
    assert_eq!(ssh::ssh_identifier().identify(b"SSH"), IdentifyResult::NeedMoreData);
}

#[test]
fn proxy_header_for_ipv4_client() {
    let h = proxy_header(v4(203, 0, 113, 5, 54321), v4(198, 51, 100, 7, 443));
    assert_eq!(h, b"PROXY TCP4 203.0.113.5 198.51.100.7 54321 443\r\n".to_vec());
}

#[test]
fn proxy_header_for_ipv6_client() {
    let client = v6([0x2001, 0xdb8, 0, 0, 0, 0, 0, 1], 40000);
    let bound = v6([0, 0, 0, 0, 0, 0, 0, 0], 443);
    let h = proxy_header(client, bound);
    assert_eq!(h, b"PROXY TCP6 2001:db8::1 :: 40000 443\r\n".to_vec());
}

#[test]
fn proxy_header_family_follows_client() {
    let client = v4(10, 0, 0, 1, 5);
    let bound = v6([0, 0, 0, 0, 0, 0xffff, 0xc633, 0x6407], 443);
    let h = proxy_header(client, bound);
    assert_eq!(h, b"PROXY TCP4 10.0.0.1 ::ffff:198.51.100.7 5 443\r\n".to_vec());
}

#[test]
fn ipv6_text_compresses_first_longest_zero_run() {
    let cases: [([u16; 8], &str); 6] = [
        ([1, 0, 0, 2, 0, 0, 0, 3], "1:0:0:2::3"),
        ([1, 0, 2, 0, 3, 0, 4, 0], "1:0:2:0:3:0:4:0"),
        ([0xfe80, 0, 0, 0, 0x1ff, 0xfe23, 0x4567, 0x890a], "fe80::1ff:fe23:4567:890a"),
        ([0, 0, 1, 0, 0, 2, 0, 0], "::1:0:0:2:0:0"),
        ([0, 0, 0, 0, 0, 0, 0, 1], "::1"),
        ([0xabcd, 0xef01, 2, 3, 4, 5, 6, 0], "abcd:ef01:2:3:4:5:6:0"),
    ];
    for (g, ip) in cases {
        let h = proxy_header(v6(g, 1), v6(g, 2));
        let expected = format!("PROXY TCP6 {ip} {ip} 1 2\r\n");
        assert_eq!(h, expected.into_bytes());
    }
}

#[test]
fn preamble_puts_header_before_handoff() {
    let client = v4(203, 0, 113, 5, 54321);
    let bound = v4(198, 51, 100, 7, 443);
    let p = upstream_preamble(true, client, bound, b"\x16\x03\x01");
    let mut expected = b"PROXY TCP4 203.0.113.5 198.51.100.7 54321 443\r\n".to_vec();
    expected.extend_from_slice(b"\x16\x03\x01");
    assert_eq!(p, expected);
    assert_eq!(upstream_preamble(false, client, bound, b"abc"), b"abc".to_vec());
}

#[test]
fn ssh_route_gets_proxy_header_when_enabled() {
    let reg = standard();
    let mut s = SniffSession::new(reg.len(), 4096);
    assert_eq!(on_read(&mut s, &reg, b"SSH-2.0-x\r\n"), Action::Relay(0));
    let plan = plan_relay(&reg, 0, &s, v4(1, 2, 3, 4, 5), v4(5, 6, 7, 8, 22));
    assert_eq!(plan.upstream, ep("ssh.local", 22));
    assert_eq!(plan.preamble, b"PROXY TCP4 1.2.3.4 5.6.7.8 5 22\r\nSSH-2.0-x\r\n".to_vec());
}

#[test]
fn no_proxy_header_when_disabled() {
    let reg = sniffing_registry(ep("ssh.local", 22), ep("tls.local", 443), false);
    assert_eq!(reg.routes[0].name, "ssh");
    assert_eq!(reg.routes[1].name, "tls");
    let mut s = SniffSession::new(reg.len(), 4096);
    assert_eq!(on_read(&mut s, &reg, b"SSH-2.0-x\r\n"), Action::Relay(0));
    let plan = plan_relay(&reg, 0, &s, v4(1, 2, 3, 4, 5), v4(5, 6, 7, 8, 22));
    assert_eq!(plan.preamble, b"SSH-2.0-x\r\n".to_vec());
}

#[test]
fn tls_route_gets_proxy_header_when_enabled() {
    let reg = standard();
    let mut s = SniffSession::new(reg.len(), 4096);
    assert_eq!(on_read(&mut s, &reg, &CLIENT_HELLO_START), Action::Relay(1));
    let plan = plan_relay(&reg, 1, &s, v4(203, 0, 113, 5, 54321), v4(198, 51, 100, 7, 443));
    let mut expected = b"PROXY TCP4 203.0.113.5 198.51.100.7 54321 443\r\n".to_vec();
    expected.extend_from_slice(&CLIENT_HELLO_START);
    assert_eq!(plan.upstream, ep("tls.local", 443));
    assert_eq!(plan.preamble, expected);
}
