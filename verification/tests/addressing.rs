use ping_pong::base32;
use ping_pong::cli::{select_mode, Mode, Opt};
use ping_pong::error::Error;
use ping_pong::multiaddr::{MultiAddr, Segment};
use ping_pong::onion::OnionAddr;

const SERVICE_ID: &str = "r4nttccifklkruvrztwxuhk2iy4xx7cnnex2sgogbo4zw6rnx3cq2bid";

fn parse(text: &str) -> Result<MultiAddr, Error> {
    MultiAddr::parse(text.as_bytes())
}

#[test]
fn parse_ip4_tcp_and_render_back() {
    let m = parse("/ip4/127.0.0.1/tcp/7777").unwrap();
    assert_eq!(m.segs.len(), 2);
    assert_eq!(m.segs[0], Segment::Ip4(127, 0, 0, 1));
    assert_eq!(m.segs[1], Segment::Tcp(7777));
    assert_eq!(m.to_text(), b"/ip4/127.0.0.1/tcp/7777".to_vec());
}

#[test]
fn parse_dns4_tcp() {
    let m = parse("/dns4/example.invalid/tcp/1").unwrap();
    assert_eq!(m.segs[0], Segment::Dns4(b"example.invalid".to_vec()));
    assert_eq!(m.segs[1], Segment::Tcp(1));
    assert_eq!(m.to_text(), b"/dns4/example.invalid/tcp/1".to_vec());
}

#[test]
fn parse_ip6_tcp_and_render_back() {
    let m = parse("/ip6/0:0:0:0:0:0:0:1/tcp/80").unwrap();
    assert_eq!(m.segs[0], Segment::Ip6(0, 0, 0, 0, 0, 0, 0, 1));
    assert_eq!(m.to_text(), b"/ip6/0:0:0:0:0:0:0:1/tcp/80".to_vec());
    let m = parse("/ip6/dead:beef:0:0:0:0:0:1/tcp/8080").unwrap();
    assert_eq!(m.segs[0], Segment::Ip6(0xdead, 0xbeef, 0, 0, 0, 0, 0, 1));
}

#[test]
fn parse_rejects_malformed_text() {
    assert_eq!(parse("").unwrap_err(), Error::InvalidAddress);
    assert_eq!(parse("ip4/1.2.3.4/tcp/1").unwrap_err(), Error::InvalidAddress);
    assert_eq!(parse("/ip4/1.2.3.4/tcp").unwrap_err(), Error::InvalidAddress);
    assert_eq!(parse("/ip4/256.1.1.1/tcp/1").unwrap_err(), Error::InvalidAddress);
    assert_eq!(parse("/ip4/01.2.3.4/tcp/1").unwrap_err(), Error::InvalidAddress);
    assert_eq!(parse("/ip4/1.2.3/tcp/1").unwrap_err(), Error::InvalidAddress);
    assert_eq!(parse("/tcp/65536").unwrap_err(), Error::InvalidAddress);
    assert_eq!(parse("/ip6/0:0:0:0:0:0:1/tcp/1").unwrap_err(), Error::InvalidAddress);
    assert_eq!(parse("/nosuch/x/tcp/1").unwrap_err(), Error::InvalidAddress);
}

#[test]
fn non_canonical_numerals_are_rejected() {
    assert_eq!(parse("/ip4/1.2.3.4/tcp/07").unwrap_err(), Error::InvalidAddress);
    assert_eq!(parse("/ip6/DEAD:0:0:0:0:0:0:1/tcp/1").unwrap_err(), Error::InvalidAddress);
    assert_eq!(parse("/ip6/0:0:0:0:0:0:0:01/tcp/1").unwrap_err(), Error::InvalidAddress);
    assert!(parse("/tcp/0").is_ok());
}

#[test]
fn malformed_onion_segment_is_invalid() {
    assert_eq!(parse("/onion3/shorty:1").unwrap_err(), Error::InvalidAddress);
    let bad_char = format!("/onion3/{}:1", "1".repeat(56));
    assert_eq!(parse(&bad_char).unwrap_err(), Error::InvalidAddress);
}

#[test]
fn onion_round_trip_through_multiaddr() {
    let pk = vec![7u8; 32];
    let addr = OnionAddr::from_public_key(&pk, 1234);
    let m = addr.multiaddr();
    let back = OnionAddr::from_multiaddr(&m).unwrap();
    assert_eq!(back.key, addr.key);
    assert_eq!(back.port, addr.port);
}

#[test]
fn non_onion_terminal_segment_is_rejected() {
    let m = parse("/ip4/127.0.0.1/tcp/7777").unwrap();
    assert_eq!(OnionAddr::from_multiaddr(&m).unwrap_err(), Error::InvalidAddress);
    let m = parse("/dns4/example.invalid/tcp/1").unwrap();
    assert_eq!(OnionAddr::from_multiaddr(&m).unwrap_err(), Error::InvalidAddress);
}

#[test]
fn corrupted_checksum_is_rejected() {
    let pk = vec![9u8; 32];
    let addr = OnionAddr::from_public_key(&pk, 80);
    let mut key = addr.key.clone();
    key[32] ^= 0xff;
    let m = MultiAddr { segs: vec![Segment::Onion3(key, 80)] };
    assert_eq!(OnionAddr::from_multiaddr(&m).unwrap_err(), Error::InvalidAddress);
}

#[test]
fn checked_address_refuses_a_corrupt_endpoint() {
    let pk = vec![5u8; 32];
    let addr = OnionAddr::from_public_key(&pk, 80);
    assert_eq!(addr.checked_address().unwrap(), addr.address());
    let mut key = addr.key.clone();
    key[33] ^= 1;
    let corrupt = OnionAddr { key, port: 80 };
    assert!(corrupt.checked_address().is_none());
}

#[test]
fn service_id_names_a_real_endpoint() {
    let addr = OnionAddr::from_service_id(SERVICE_ID.as_bytes(), 7777).unwrap();
    assert_eq!(addr.address(), format!("{}.onion:7777", SERVICE_ID));
    let text = addr.multiaddr().to_text();
    assert_eq!(text, format!("/onion3/{}:7777", SERVICE_ID).into_bytes());
}

#[test]
fn derived_checksum_matches_a_real_service_id() {
    let bytes = base32::decode(SERVICE_ID.as_bytes()).unwrap();
    assert_eq!(bytes.len(), 35);
    let pk = bytes[..32].to_vec();
    let addr = OnionAddr::from_public_key(&pk, 7777);
    assert_eq!(addr.key, bytes);
    assert_eq!(addr.address(), format!("{}.onion:7777", SERVICE_ID));
}

#[test]
fn onion_text_parses_back_to_the_same_endpoint() {
    let text = format!("/onion3/{}:7777", SERVICE_ID);
    let m = parse(&text).unwrap();
    let addr = OnionAddr::from_multiaddr(&m).unwrap();
    assert_eq!(addr.address(), format!("{}.onion:7777", SERVICE_ID));
    assert_eq!(m.to_text(), text.into_bytes());
}

#[test]
fn base32_encodes_and_decodes() {
    assert_eq!(base32::encode(b"hello"), b"nbswy3dp".to_vec());
    assert_eq!(base32::decode(b"nbswy3dp").unwrap(), b"hello".to_vec());
    assert!(base32::decode(b"NBSWY3DP").is_none());
    assert!(base32::decode(b"abc").is_none());
    let data = vec![0u8, 255, 1, 2, 3, 4, 5, 6, 7, 8];
    assert_eq!(base32::decode(&base32::encode(&data)).unwrap(), data);
}

#[test]
fn dialer_mode_needs_an_address_that_parses() {
    let opt = Opt { dialer: true, listener: false, address: None };
    assert_eq!(select_mode(&opt).unwrap_err(), Error::InvalidAddress);

    let opt = Opt { dialer: true, listener: false, address: Some("/onion3/shorty:1".to_string()) };
    assert_eq!(select_mode(&opt).unwrap_err(), Error::InvalidAddress);

    let opt = Opt {
        dialer: true,
        listener: false,
        address: Some(format!("/onion3/{}:7777", SERVICE_ID)),
    };
    match select_mode(&opt).unwrap() {
        Mode::Dialer(m) => {
            assert_eq!(m.to_text(), format!("/onion3/{}:7777", SERVICE_ID).into_bytes());
            assert!(ping_pong::cli::is_valid_onion_addr(&m));
        }
        Mode::Listener(_) => panic!("dialer expected"),
    }
}

#[test]
fn dialer_mode_admits_clearnet_targets() {
    let opt = Opt {
        dialer: true,
        listener: false,
        address: Some("/ip4/10.0.0.2/tcp/80".to_string()),
    };
    match select_mode(&opt).unwrap() {
        Mode::Dialer(m) => {
            assert_eq!(m.to_text(), b"/ip4/10.0.0.2/tcp/80".to_vec());
            assert!(!ping_pong::cli::is_valid_onion_addr(&m));
        }
        Mode::Listener(_) => panic!("dialer expected"),
    }
    let opt = Opt {
        dialer: true,
        listener: false,
        address: Some("/dns4/example.invalid/tcp/1".to_string()),
    };
    assert!(matches!(select_mode(&opt).unwrap(), Mode::Dialer(_)));
}

#[test]
fn listener_mode_defaults_to_the_local_address() {
    let opt = Opt { dialer: false, listener: true, address: None };
    match select_mode(&opt).unwrap() {
        Mode::Listener(m) => assert_eq!(m.to_text(), b"/ip4/127.0.0.1/tcp/7777".to_vec()),
        Mode::Dialer(_) => panic!("listener expected"),
    }
    let opt = Opt { dialer: false, listener: true, address: Some("/onion3/x:1".to_string()) };
    assert_eq!(select_mode(&opt).unwrap_err(), Error::InvalidAddress);
}
