use ping_pong::control::{
    add_onion_line, authenticate_cookie_line, authenticate_null_line, begin_session,
    choose_auth_method, parse_auth_line, parse_methods, parse_reply_line, protocolinfo_line,
    reply_text, session_state, session_step, takeownership_line, AuthChoice, SessionAction,
    SessionConfig, SessionPhase, SessionState,
};
use ping_pong::error::Error;
use ping_pong::multiaddr::MultiAddr;
use ping_pong::route::{route, DialTarget};
use ping_pong::socks::{connect_request, greeting, parse_connect_reply, parse_method_reply};

const SERVICE_ID: &str = "r4nttccifklkruvrztwxuhk2iy4xx7cnnex2sgogbo4zw6rnx3cq2bid";

#[test]
fn greeting_offers_no_authentication() {
    assert_eq!(greeting(), vec![5, 1, 0]);
}

#[test]
fn method_reply_must_accept_no_authentication() {
    assert!(parse_method_reply(&[5, 0]).is_ok());
    assert_eq!(parse_method_reply(&[5, 255]).unwrap_err(), Error::SocksHandshake);
    assert_eq!(parse_method_reply(&[4, 0]).unwrap_err(), Error::SocksHandshake);
    assert_eq!(parse_method_reply(&[5, 0, 0]).unwrap_err(), Error::SocksHandshake);
}

#[test]
fn connect_request_for_an_ip4_target() {
    let m = MultiAddr::parse(b"/ip4/10.0.0.2/tcp/80").unwrap();
    let t = route(&m).unwrap();
    let req = connect_request(&t);
    assert_eq!(req, vec![5, 1, 0, 1, 10, 0, 0, 2, 0, 80]);
}

#[test]
fn connect_request_for_an_onion_target_is_a_domain() {
    let text = format!("/onion3/{}:7777", SERVICE_ID);
    let m = MultiAddr::parse(text.as_bytes()).unwrap();
    let t = route(&m).unwrap();
    assert!(matches!(t, DialTarget::OnionViaSocks(_, 7777)));
    let req = connect_request(&t);
    let mut expected = vec![5, 1, 0, 3, 62];
    expected.extend_from_slice(SERVICE_ID.as_bytes());
    expected.extend_from_slice(b".onion");
    expected.extend_from_slice(&[0x1e, 0x61]);
    assert_eq!(req, expected);
}

#[test]
fn connect_request_for_a_dns_target() {
    let m = MultiAddr::parse(b"/dns4/example.invalid/tcp/1").unwrap();
    let t = route(&m).unwrap();
    let req = connect_request(&t);
    let mut expected = vec![5, 1, 0, 3, 15];
    expected.extend_from_slice(b"example.invalid");
    expected.extend_from_slice(&[0, 1]);
    assert_eq!(req, expected);
}

#[test]
fn refused_connection_is_a_socks_connect_error() {
    assert!(parse_connect_reply(&[5, 0, 0, 1, 0, 0, 0, 0, 0, 0]).is_ok());
    assert_eq!(
        parse_connect_reply(&[5, 5, 0, 1, 0, 0, 0, 0, 0, 0]).unwrap_err(),
        Error::SocksConnect
    );
    assert_eq!(parse_connect_reply(&[4, 0]).unwrap_err(), Error::SocksHandshake);
    assert_eq!(parse_connect_reply(&[5]).unwrap_err(), Error::SocksHandshake);
}

#[test]
fn command_lines_are_rendered_exactly() {
    assert_eq!(protocolinfo_line(), b"PROTOCOLINFO 1\r\n".to_vec());
    assert_eq!(takeownership_line(), b"TAKEOWNERSHIP\r\n".to_vec());
    assert_eq!(authenticate_null_line(), b"AUTHENTICATE\r\n".to_vec());
    assert_eq!(
        authenticate_cookie_line(&[0xde, 0xad, 0x01]),
        b"AUTHENTICATE dead01\r\n".to_vec()
    );
    assert_eq!(
        add_onion_line(7777, 7777),
        b"ADD_ONION NEW:ED25519-V3 Port=7777,127.0.0.1:7777\r\n".to_vec()
    );
    assert_eq!(
        add_onion_line(443, 8080),
        b"ADD_ONION NEW:ED25519-V3 Port=443,127.0.0.1:8080\r\n".to_vec()
    );
}

#[test]
fn reply_lines_carry_code_and_finality() {
    assert_eq!(parse_reply_line(b"250 OK"), Some((250, true)));
    assert_eq!(parse_reply_line(b"250-AUTH METHODS=NULL"), Some((250, false)));
    assert_eq!(parse_reply_line(b"515 Bad authentication"), Some((515, true)));
    assert_eq!(parse_reply_line(b"junk"), None);
    assert_eq!(parse_reply_line(b"25"), None);
    assert_eq!(reply_text(b"250 OK"), b"OK".to_vec());
}

#[test]
fn protocolinfo_auth_line_is_read_exactly() {
    let (methods, cookie) = parse_auth_line(
        b"AUTH METHODS=COOKIE,SAFECOOKIE COOKIEFILE=\"/run/tor/control.authcookie\"",
    )
    .unwrap();
    assert!(methods.cookie);
    assert!(!methods.hashed_password);
    assert!(!methods.null);
    assert_eq!(cookie.unwrap(), b"/run/tor/control.authcookie".to_vec());

    let (methods, cookie) = parse_auth_line(b"AUTH METHODS=NULL").unwrap();
    assert!(methods.null && !methods.cookie && !methods.hashed_password);
    assert!(cookie.is_none());

    assert!(parse_auth_line(b"VERSION Tor=\"0.4.7\"").is_none());
}

#[test]
fn auth_method_priority_is_cookie_then_password_then_null() {
    let all = parse_methods(b"COOKIE,HASHEDPASSWORD,NULL");
    assert_eq!(choose_auth_method(&all), Some(AuthChoice::Cookie));
    let pw = parse_methods(b"HASHEDPASSWORD,NULL");
    assert_eq!(choose_auth_method(&pw), Some(AuthChoice::HashedPassword));
    let null = parse_methods(b"NULL");
    assert_eq!(choose_auth_method(&null), Some(AuthChoice::Null));
    let none = parse_methods(b"SAFECOOKIE");
    assert_eq!(choose_auth_method(&none), None);
}

#[test]
fn registration_session_walks_to_the_onion_address() {
    let config = SessionConfig {
        auth_line: authenticate_null_line(),
        virt_port: 7777,
        local_port: 7777,
    };
    let (phase, first) = begin_session();
    assert_eq!(first, b"PROTOCOLINFO 1\r\n".to_vec());
    assert_eq!(session_state(&phase), SessionState::Unauthenticated);

    let (phase, action) = session_step(phase, 250, b"", &config);
    assert_eq!(action, SessionAction::Send(b"AUTHENTICATE\r\n".to_vec()));

    let (phase, action) = session_step(phase, 250, b"", &config);
    assert_eq!(action, SessionAction::Send(b"TAKEOWNERSHIP\r\n".to_vec()));
    assert_eq!(session_state(&phase), SessionState::Authenticated);

    let (phase, action) = session_step(phase, 250, b"", &config);
    assert_eq!(
        action,
        SessionAction::Send(b"ADD_ONION NEW:ED25519-V3 Port=7777,127.0.0.1:7777\r\n".to_vec())
    );
    assert_eq!(session_state(&phase), SessionState::Owning);

    let data = format!("ServiceID={}", SERVICE_ID);
    let (phase, action) = session_step(phase, 250, data.as_bytes(), &config);
    assert_eq!(phase, SessionPhase::Done);
    match action {
        SessionAction::Finished(addr) => {
            assert_eq!(addr.address(), format!("{}.onion:7777", SERVICE_ID));
        }
        other => panic!("unexpected action: {:?}", other),
    }
}

#[test]
fn failed_authentication_closes_the_session() {
    let config = SessionConfig {
        auth_line: authenticate_null_line(),
        virt_port: 7777,
        local_port: 7777,
    };
    let (phase, _) = begin_session();
    let (phase, action) = session_step(phase, 250, b"", &config);
    assert!(matches!(action, SessionAction::Send(_)));
    let (phase, action) = session_step(phase, 515, b"", &config);
    assert_eq!(phase, SessionPhase::Closed);
    assert_eq!(action, SessionAction::Fail(Error::ControlAuth));
    assert_eq!(session_state(&phase), SessionState::Closed);
}

#[test]
fn rejected_registration_closes_the_session() {
    let config = SessionConfig {
        auth_line: authenticate_null_line(),
        virt_port: 7777,
        local_port: 7777,
    };
    let (phase, _) = begin_session();
    let (phase, _) = session_step(phase, 250, b"", &config);
    let (phase, _) = session_step(phase, 250, b"", &config);
    let (phase, _) = session_step(phase, 250, b"", &config);
    let (phase, action) = session_step(phase, 551, b"", &config);
    assert_eq!(phase, SessionPhase::Closed);
    assert_eq!(action, SessionAction::Fail(Error::OnionRegister));

    let (phase, _) = begin_session();
    let (phase, _) = session_step(phase, 250, b"", &config);
    let (phase, _) = session_step(phase, 250, b"", &config);
    let (phase, _) = session_step(phase, 250, b"", &config);
    let (phase, action) = session_step(phase, 250, b"ServiceID=shorty", &config);
    assert_eq!(phase, SessionPhase::Closed);
    assert_eq!(action, SessionAction::Fail(Error::OnionRegister));
}
