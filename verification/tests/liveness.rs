use ping_pong::error::Error;
use ping_pong::multiaddr::MultiAddr;
use ping_pong::ping::{
    due, initial_state, on_echo, on_tick, start_ping, PingConfig, PingOutcome, PingState,
};
use ping_pong::multiaddr::Segment;
use ping_pong::route::{
    check_upgrade_deadline, pick_resolved, route, tor_control_addr, tor_proxy_addr, DialTarget,
    UPGRADE_TIMEOUT_MILLIS,
};

const SERVICE_ID: &str = "r4nttccifklkruvrztwxuhk2iy4xx7cnnex2sgogbo4zw6rnx3cq2bid";

fn dialer_config() -> PingConfig {
    PingConfig::new().with_keep_alive(true).with_interval(1000)
}

#[test]
fn onion_targets_always_go_through_socks() {
    let text = format!("/onion3/{}:7777", SERVICE_ID);
    let m = MultiAddr::parse(text.as_bytes()).unwrap();
    match route(&m).unwrap() {
        DialTarget::OnionViaSocks(key, port) => {
            assert_eq!(key.len(), 35);
            assert_eq!(port, 7777);
        }
        other => panic!("onion target dialed directly: {:?}", other),
    }
}

#[test]
fn plain_shapes_route_to_tcp_or_dns() {
    let m = MultiAddr::parse(b"/ip4/10.0.0.2/tcp/80").unwrap();
    assert!(matches!(route(&m).unwrap(), DialTarget::DirectTcp(_, 80)));
    let m = MultiAddr::parse(b"/dns4/example.invalid/tcp/1").unwrap();
    assert!(matches!(route(&m).unwrap(), DialTarget::DnsThenTcp(_, 1)));
    let m = MultiAddr::parse(b"/ip6/0:0:0:0:0:0:0:1/tcp/443").unwrap();
    assert!(matches!(route(&m).unwrap(), DialTarget::DirectTcp(_, 443)));
}

#[test]
fn unroutable_shapes_are_unsupported() {
    let m = MultiAddr::parse(b"/ip4/10.0.0.2").unwrap();
    assert_eq!(route(&m).unwrap_err(), Error::UnsupportedAddress);
    let m = MultiAddr::parse(b"/tcp/80").unwrap();
    assert_eq!(route(&m).unwrap_err(), Error::UnsupportedAddress);
    let m = MultiAddr::parse(b"/ip4/1.2.3.4/tcp/80/tcp/81").unwrap();
    assert_eq!(route(&m).unwrap_err(), Error::UnsupportedAddress);
}

#[test]
fn empty_resolution_is_a_dns_resolve_error() {
    assert_eq!(pick_resolved(&vec![], 1).unwrap_err(), Error::DnsResolve);
    let names_only = vec![Segment::Dns4(b"example.invalid".to_vec())];
    assert_eq!(pick_resolved(&names_only, 1).unwrap_err(), Error::DnsResolve);
}

#[test]
fn resolution_picks_the_first_ip_host() {
    let answer = vec![
        Segment::Dns4(b"alias.invalid".to_vec()),
        Segment::Ip4(10, 0, 0, 2),
        Segment::Ip4(10, 0, 0, 3),
    ];
    match pick_resolved(&answer, 80).unwrap() {
        DialTarget::DirectTcp(host, port) => {
            assert_eq!(host, Segment::Ip4(10, 0, 0, 2));
            assert_eq!(port, 80);
        }
        other => panic!("unexpected target: {:?}", other),
    }
}

#[test]
fn upgrade_deadline_is_twenty_seconds() {
    assert!(check_upgrade_deadline(1000, 1000).is_ok());
    assert!(check_upgrade_deadline(1000, 1000 + UPGRADE_TIMEOUT_MILLIS - 1).is_ok());
    assert_eq!(
        check_upgrade_deadline(1000, 1000 + UPGRADE_TIMEOUT_MILLIS).unwrap_err(),
        Error::UpgradeTimeout
    );
    assert_eq!(check_upgrade_deadline(0, u64::MAX).unwrap_err(), Error::UpgradeTimeout);
}

#[test]
fn well_known_tor_endpoints() {
    assert_eq!(tor_proxy_addr(), ((127, 0, 0, 1), 9050));
    assert_eq!(tor_control_addr(), ((127, 0, 0, 1), 9051));
}

#[test]
fn echoed_nonce_is_a_success_with_the_round_trip_time() {
    let config = dialer_config();
    let state = initial_state(5000);
    assert!(due(&state, 5000));
    let nonce = vec![0xabu8; 32];
    let state = start_ping(&state, nonce.clone(), 5000, &config);
    assert!(!due(&state, 5500));
    let (state, outcome) = on_echo(&state, &nonce, 5234, &config);
    assert_eq!(outcome, PingOutcome::Success(234));
    assert!(due(&state, 6000));
}

#[test]
fn successive_pings_have_their_own_round_trips() {
    let config = dialer_config();
    let mut state = initial_state(0);
    let mut rtts = Vec::new();
    let mut now: u64 = 0;
    for i in 0..3u64 {
        assert!(due(&state, now));
        let nonce = vec![i as u8; 32];
        state = start_ping(&state, nonce.clone(), now, &config);
        let reply_at = now + 100 + i * 7;
        let (next, outcome) = on_echo(&state, &nonce, reply_at, &config);
        match outcome {
            PingOutcome::Success(rtt) => rtts.push(rtt),
            other => panic!("probe failed: {:?}", other),
        }
        state = next;
        now += 1000;
    }
    assert_eq!(rtts, vec![100, 107, 114]);
}

#[test]
fn mismatched_echo_is_a_protocol_violation() {
    let config = dialer_config();
    let state = start_ping(&initial_state(0), vec![1u8; 32], 0, &config);
    let (_, outcome) = on_echo(&state, &[2u8; 32], 10, &config);
    assert_eq!(outcome, PingOutcome::Failure(Error::ProtocolViolation, false));

    let strict = PingConfig::new().with_keep_alive(false);
    let state = start_ping(&initial_state(0), vec![1u8; 32], 0, &strict);
    let (_, outcome) = on_echo(&state, &[2u8; 32], 10, &strict);
    assert_eq!(outcome, PingOutcome::Failure(Error::ProtocolViolation, true));
}

#[test]
fn timeout_closes_only_without_keep_alive() {
    let keep = PingConfig::new().with_keep_alive(true);
    let state = start_ping(&initial_state(0), vec![3u8; 32], 0, &keep);
    let (state, outcome) = on_tick(state, 1000, &keep);
    assert_eq!(outcome, Some(PingOutcome::Failure(Error::Io, false)));
    assert!(due(&state, 1000));

    let strict = PingConfig::new().with_keep_alive(false);
    let state = start_ping(&initial_state(0), vec![3u8; 32], 0, &strict);
    let (_, outcome) = on_tick(state, 1000, &strict);
    assert_eq!(outcome, Some(PingOutcome::Failure(Error::Io, true)));
}

#[test]
fn a_probe_within_its_deadline_stays_in_flight() {
    let config = dialer_config();
    let state = start_ping(&initial_state(0), vec![4u8; 32], 0, &config);
    let (state, outcome) = on_tick(state, 999, &config);
    assert!(outcome.is_none());
    assert!(matches!(state, PingState::InFlight(_, 0, 1000)));
    let (state, outcome) = on_tick(state, 500, &config);
    assert!(outcome.is_none());
    let (_, outcome) = on_tick(state, 1000, &config);
    assert_eq!(outcome, Some(PingOutcome::Failure(Error::Io, false)));
}
