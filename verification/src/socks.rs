use vstd::prelude::*;

use crate::base32;
use crate::error::Error;
use crate::multiaddr::{seg_wf, SegView, Segment};
use crate::route::{DialTarget, TargetView};

verus! {

// ---------------------------------------------------------------------------
// The SOCKS5 wire format (RFC 1928), as used against the local Tor
// proxy: a greeting offering only the no-authentication method, then a
// CONNECT request.  Onion and DNS targets are carried as domain names
// so that resolution happens inside Tor; IP targets are carried as
// addresses.  The raw TCP stream is handed back for further upgrade.
// ---------------------------------------------------------------------------

/// The SOCKS protocol version byte.
pub const SOCKS_VERSION: u8 = 5;

/// The greeting: version 5, one method offered, no authentication.
pub open spec fn greeting_bytes() -> Seq<u8> {
    seq![5u8, 1u8, 0u8]
}

/// Build the greeting.
pub fn greeting() -> (r: Vec<u8>)
    ensures
        r@ == greeting_bytes(),
{
    let mut r: Vec<u8> = Vec::new();
    r.push(5);
    r.push(1);
    r.push(0);
    proof {
        assert(r@ =~= greeting_bytes());
    }
    r
}

/// What the proxy's method reply must be: version 5, method 0.
///
/// Succeeds exactly on that reply; everything else fails the
/// handshake.
pub fn parse_method_reply(b: &[u8]) -> (r: Result<(), Error>)
    ensures
        r is Ok <==> b@ == seq![5u8, 0u8],
        r matches Err(e) ==> e == Error::SocksHandshake,
{
    if b.len() == 2 && b[0] == 5 && b[1] == 0 {
        proof {
            assert(b@ =~= seq![5u8, 0u8]);
        }
        Ok(())
    } else {
        proof {
            if b@ == seq![5u8, 0u8] {
                assert(b@.len() == 2);
                assert(b@[0] == 5 && b@[1] == 0);
            }
        }
        Err(Error::SocksHandshake)
    }
}

/// The bytes of `.onion`.
pub open spec fn dot_onion() -> Seq<u8> {
    seq![46u8, 111u8, 110u8, 105u8, 111u8, 110u8]
}

/// The address part of a CONNECT request: address type, then the
/// address.  An onion endpoint travels as the domain
/// `<56 base32 chars>.onion` (62 bytes), a DNS name as itself, an IP
/// host as its address bytes.
pub open spec fn connect_addr_bytes(t: TargetView) -> Seq<u8> {
    match t {
        TargetView::DirectTcp(SegView::Ip4(a, b, c, d), _port) => seq![1u8, a, b, c, d],
        TargetView::DirectTcp(SegView::Ip6(gs), _port) => seq![4u8] + seq![
            (gs[0] / 256) as u8,
            (gs[0] % 256) as u8,
            (gs[1] / 256) as u8,
            (gs[1] % 256) as u8,
            (gs[2] / 256) as u8,
            (gs[2] % 256) as u8,
            (gs[3] / 256) as u8,
            (gs[3] % 256) as u8,
            (gs[4] / 256) as u8,
            (gs[4] % 256) as u8,
            (gs[5] / 256) as u8,
            (gs[5] % 256) as u8,
            (gs[6] / 256) as u8,
            (gs[6] % 256) as u8,
            (gs[7] / 256) as u8,
            (gs[7] % 256) as u8,
        ],
        TargetView::DirectTcp(_, _port) => Seq::<u8>::empty(),
        TargetView::DnsThenTcp(name, _port) => seq![3u8, name.len() as u8] + name,
        TargetView::OnionViaSocks(key, _port) => seq![3u8, 62u8] + base32::b32_encode(key)
            + dot_onion(),
    }
}

/// The port of a dial target.
pub open spec fn target_port(t: TargetView) -> u16 {
    match t {
        TargetView::DirectTcp(_, port) => port,
        TargetView::DnsThenTcp(_, port) => port,
        TargetView::OnionViaSocks(_, port) => port,
    }
}

/// A target the CONNECT encoding is defined for: the host of a direct
/// dial is an IP segment, a DNS name fits in one length byte, an onion
/// endpoint has its 35 bytes.
pub open spec fn target_encodable(t: TargetView) -> bool {
    match t {
        TargetView::DirectTcp(host, _port) => (host is Ip4 || host is Ip6) && seg_wf(host),
        TargetView::DnsThenTcp(name, _port) => 1 <= name.len() <= 255,
        TargetView::OnionViaSocks(key, _port) => key.len() == 35,
    }
}

/// Test encodability, so that a caller outside verified code can
/// establish what [`connect_request`] asks for.
pub fn target_is_encodable(t: &DialTarget) -> (r: bool)
    ensures
        r == target_encodable(t@),
{
    match t {
        DialTarget::DirectTcp(host, _) => match host {
            Segment::Ip4(_, _, _, _) => true,
            Segment::Ip6(_, _, _, _, _, _, _, _) => true,
            _ => false,
        },
        DialTarget::DnsThenTcp(name, _) => 1 <= name.len() && name.len() <= 255,
        DialTarget::OnionViaSocks(key, _) => key.len() == 35,
    }
}

/// How many bytes of bound address follow the address-type byte of a
/// CONNECT reply, for the fixed-size address types; the port's two
/// bytes come after.
pub fn reply_addr_len(atyp: u8) -> (r: Option<usize>)
    ensures
        r == (if atyp == 1 {
            Some(4usize)
        } else if atyp == 4 {
            Some(16usize)
        } else {
            None::<usize>
        }),
{
    if atyp == 1 {
        Some(4)
    } else if atyp == 4 {
        Some(16)
    } else {
        None
    }
}

/// The whole CONNECT request: version, command, reserved byte, the
/// address part, and the port in network order.
pub open spec fn connect_request_bytes(t: TargetView) -> Seq<u8> {
    seq![5u8, 1u8, 0u8] + connect_addr_bytes(t) + seq![
        (target_port(t) / 256) as u8,
        (target_port(t) % 256) as u8,
    ]
}

/// Build the CONNECT request for a dial target.
#[verifier::rlimit(60)]
pub fn connect_request(t: &DialTarget) -> (r: Vec<u8>)
    requires
        target_encodable(t@),
    ensures
        r@ == connect_request_bytes(t@),
{
    let mut r: Vec<u8> = Vec::new();
    r.push(5);
    r.push(1);
    r.push(0);
    let port: u16;
    match t {
        DialTarget::DirectTcp(host, p) => {
            port = *p;
            match host {
                Segment::Ip4(a, b, c, d) => {
                    r.push(1);
                    r.push(*a);
                    r.push(*b);
                    r.push(*c);
                    r.push(*d);
                },
                Segment::Ip6(g0, g1, g2, g3, g4, g5, g6, g7) => {
                    r.push(4);
                    r.push((g0 / 256) as u8);
                    r.push((g0 % 256) as u8);
                    r.push((g1 / 256) as u8);
                    r.push((g1 % 256) as u8);
                    r.push((g2 / 256) as u8);
                    r.push((g2 % 256) as u8);
                    r.push((g3 / 256) as u8);
                    r.push((g3 % 256) as u8);
                    r.push((g4 / 256) as u8);
                    r.push((g4 % 256) as u8);
                    r.push((g5 / 256) as u8);
                    r.push((g5 % 256) as u8);
                    r.push((g6 / 256) as u8);
                    r.push((g6 % 256) as u8);
                    r.push((g7 / 256) as u8);
                    r.push((g7 % 256) as u8);
                },
                _ => {
                    proof {
                        assert(false);
                    }
                },
            }
        },
        DialTarget::DnsThenTcp(name, p) => {
            port = *p;
            r.push(3);
            r.push(name.len() as u8);
            crate::multiaddr::push_all(&mut r, name.as_slice());
        },
        DialTarget::OnionViaSocks(key, p) => {
            port = *p;
            r.push(3);
            r.push(62);
            let text = base32::encode(key.as_slice());
            crate::multiaddr::push_all(&mut r, text.as_slice());
            r.push(46);
            r.push(111);
            r.push(110);
            r.push(105);
            r.push(111);
            r.push(110);
        },
    }
    r.push((port / 256) as u8);
    r.push((port % 256) as u8);
    proof {
        assert(r@ =~= connect_request_bytes(t@));
    }
    r
}

/// What the proxy's CONNECT reply means: version 5 and reply code 0 is
/// success, any other code is a refused connection, anything else is a
/// broken handshake.
pub open spec fn connect_reply_spec(b: Seq<u8>) -> Result<(), Error> {
    if b.len() >= 2 && b[0] == 5 {
        if b[1] == 0 {
            Ok(())
        } else {
            Err(Error::SocksConnect)
        }
    } else {
        Err(Error::SocksHandshake)
    }
}

/// Read the proxy's CONNECT reply.
pub fn parse_connect_reply(b: &[u8]) -> (r: Result<(), Error>)
    ensures
        r == connect_reply_spec(b@),
{
    if b.len() >= 2 && b[0] == 5 {
        if b[1] == 0 {
            Ok(())
        } else {
            Err(Error::SocksConnect)
        }
    } else {
        Err(Error::SocksHandshake)
    }
}

} // verus!
