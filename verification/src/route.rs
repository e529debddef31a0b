use vstd::prelude::*;

use crate::error::Error;
use crate::multiaddr::{MultiAddr, SegView, Segment};

verus! {

// ---------------------------------------------------------------------------
// The dial-routing decision of the transport: the terminal segment of
// the target address decides how the connection is opened.  An onion
// endpoint is never dialed directly: it goes through the local SOCKS5
// proxy, which resolves it inside the Tor network.
// ---------------------------------------------------------------------------

/// Where and how to open an outbound connection.
#[derive(Clone, Debug, PartialEq, Eq)]
pub enum DialTarget {
    /// Dial the host segment directly over TCP.
    DirectTcp(Segment, u16),
    /// Resolve the name, then dial the resolved host over TCP.
    DnsThenTcp(Vec<u8>, u16),
    /// Reach the onion endpoint (35 name bytes, virtual port) through
    /// the SOCKS5 proxy.
    OnionViaSocks(Vec<u8>, u16),
}

/// The mathematical model of a dial target.
pub enum TargetView {
    /// Dial the host directly over TCP.
    DirectTcp(SegView, u16),
    /// Resolve, then dial over TCP.
    DnsThenTcp(Seq<u8>, u16),
    /// Reach the onion endpoint through the SOCKS5 proxy.
    OnionViaSocks(Seq<u8>, u16),
}

impl View for DialTarget {
    type V = TargetView;

    open spec fn view(&self) -> TargetView {
        match self {
            DialTarget::DirectTcp(host, port) => TargetView::DirectTcp(host@, *port),
            DialTarget::DnsThenTcp(name, port) => TargetView::DnsThenTcp(name@, *port),
            DialTarget::OnionViaSocks(key, port) => TargetView::OnionViaSocks(key@, *port),
        }
    }
}

/// The routing decision: an address ending in `onion3` goes through
/// SOCKS5; `/dns4/<name>/tcp/<port>` is resolved first; an IP host
/// with a TCP port is dialed directly; everything else is unroutable.
pub open spec fn route_spec(svs: Seq<SegView>) -> Option<TargetView> {
    if svs.len() > 0 && svs.last() is Onion3 {
        match svs.last() {
            SegView::Onion3(key, port) => Some(TargetView::OnionViaSocks(key, port)),
            _ => None,
        }
    } else if svs.len() == 2 && svs[1] is Tcp {
        match (svs[0], svs[1]) {
            (SegView::Ip4(a, b, c, d), SegView::Tcp(port)) => Some(
                TargetView::DirectTcp(SegView::Ip4(a, b, c, d), port),
            ),
            (SegView::Ip6(gs), SegView::Tcp(port)) => Some(
                TargetView::DirectTcp(SegView::Ip6(gs), port),
            ),
            (SegView::Dns4(name), SegView::Tcp(port)) => Some(
                TargetView::DnsThenTcp(name, port),
            ),
            _ => None,
        }
    } else {
        None
    }
}

/// Decide how to dial an address.
///
/// Succeeds exactly on the routable shapes of [`route_spec`]; every
/// other address is rejected as `UnsupportedAddress`.
pub fn route(m: &MultiAddr) -> (r: Result<DialTarget, Error>)
    ensures
        r is Ok <==> route_spec(m@) is Some,
        r matches Ok(t) ==> Some(t@) == route_spec(m@),
        r matches Err(e) ==> e == Error::UnsupportedAddress,
{
    let n = m.len();
    match m.last_segment() {
        Some(seg) => match seg {
            Segment::Onion3(key, port) => {
                let k = crate::bytes::copy_range(key.as_slice(), 0, key.len());
                proof {
                    assert(k@ =~= key@);
                }
                return Ok(DialTarget::OnionViaSocks(k, *port));
            },
            _ => {},
        },
        None => {
            return Err(Error::UnsupportedAddress);
        },
    }
    if n != 2 {
        return Err(Error::UnsupportedAddress);
    }
    let port: u16 = match m.last_segment() {
        Some(seg) => match seg {
            Segment::Tcp(p) => *p,
            _ => {
                return Err(Error::UnsupportedAddress);
            },
        },
        None => {
            return Err(Error::UnsupportedAddress);
        },
    };
    let host = &m.segs[0];
    proof {
        assert(m@[0] == m.segs@[0]@);
        assert(m@[1] == m@.last());
    }
    match host {
        Segment::Ip4(a, b, c, d) => Ok(DialTarget::DirectTcp(Segment::Ip4(*a, *b, *c, *d), port)),
        Segment::Ip6(g0, g1, g2, g3, g4, g5, g6, g7) => Ok(
            DialTarget::DirectTcp(Segment::Ip6(*g0, *g1, *g2, *g3, *g4, *g5, *g6, *g7), port),
        ),
        Segment::Dns4(name) => {
            let n2 = crate::bytes::copy_range(name.as_slice(), 0, name.len());
            proof {
                assert(n2@ =~= name@);
            }
            Ok(DialTarget::DnsThenTcp(n2, port))
        },
        _ => Err(Error::UnsupportedAddress),
    }
}

/// Every dial of an onion target goes through SOCKS5: the routing
/// decision for an address whose terminal segment is `onion3` is the
/// SOCKS5 path, with the segment's own endpoint bytes and port.
pub proof fn lemma_onion_routes_via_socks(svs: Seq<SegView>, key: Seq<u8>, port: u16)
    requires
        svs.len() > 0,
        svs.last() == SegView::Onion3(key, port),
    ensures
        route_spec(svs) == Some(TargetView::OnionViaSocks(key, port)),
{
}

/// No direct TCP dial ever names an onion endpoint: when the routing
/// decision is a direct dial, no segment of the address is `onion3`.
pub proof fn lemma_direct_tcp_never_onion(svs: Seq<SegView>)
    requires
        route_spec(svs) matches Some(t) && t is DirectTcp,
    ensures
        forall|i: int| 0 <= i < svs.len() ==> !(#[trigger] svs[i] is Onion3),
{
    assert(svs.len() == 2);
    assert(!(svs[0] is Onion3));
    assert(!(svs[1] is Onion3));
}

/// The first resolved IP host of a name's resolution, from `i` on.
pub open spec fn first_host(addrs: Seq<SegView>, i: int) -> Option<SegView>
    decreases addrs.len() - i,
{
    if i < 0 || i >= addrs.len() {
        None
    } else if addrs[i] is Ip4 || addrs[i] is Ip6 {
        Some(addrs[i])
    } else {
        first_host(addrs, i + 1)
    }
}

/// Choose the dial target from what the resolver answered for a DNS
/// name: the first IP host, dialed directly on the name's port.
///
/// Succeeds exactly when the answer holds an IP host; an answer
/// without one — the resolver failed, or returned nothing usable — is
/// a resolution failure.
pub fn pick_resolved(addrs: &Vec<Segment>, port: u16) -> (r: Result<DialTarget, Error>)
    ensures
        r is Ok <==> first_host(addrs@.map_values(|s: Segment| s@), 0) is Some,
        r matches Ok(t) ==> (t@ matches TargetView::DirectTcp(h, p) && Some(h) == first_host(
            addrs@.map_values(|s: Segment| s@),
            0,
        ) && p == port),
        r matches Err(e) ==> e == Error::DnsResolve,
{
    let ghost views = addrs@.map_values(|s: Segment| s@);
    let mut i: usize = 0;
    while i < addrs.len()
        invariant
            0 <= i <= addrs@.len(),
            views == addrs@.map_values(|s: Segment| s@),
            first_host(views, 0) == first_host(views, i as int),
        decreases addrs@.len() - i,
    {
        proof {
            assert(views[i as int] == addrs@[i as int]@);
        }
        match &addrs[i] {
            Segment::Ip4(a, b, c, d) => {
                return Ok(DialTarget::DirectTcp(Segment::Ip4(*a, *b, *c, *d), port));
            },
            Segment::Ip6(g0, g1, g2, g3, g4, g5, g6, g7) => {
                return Ok(
                    DialTarget::DirectTcp(
                        Segment::Ip6(*g0, *g1, *g2, *g3, *g4, *g5, *g6, *g7),
                        port,
                    ),
                );
            },
            _ => {
                proof {
                    assert(first_host(views, i as int) == first_host(views, i + 1));
                }
            },
        }
        i += 1;
    }
    proof {
        assert(first_host(views, i as int) is None);
    }
    Err(Error::DnsResolve)
}

// ---------------------------------------------------------------------------
// The composite-upgrade deadline.
// ---------------------------------------------------------------------------

/// Every connection upgrade must finish within this many milliseconds.
pub const UPGRADE_TIMEOUT_MILLIS: u64 = 20000;

/// Decide whether an upgrade that started at `started_ms` may still
/// run at `now_ms`, or has exceeded its deadline.
///
/// Succeeds exactly while less than twenty seconds have passed;
/// afterwards the attempt fails with `UpgradeTimeout`.  The runtime
/// asks this on every poll of a pending upgrade, so an upgrade either
/// completes within the window or is cut off with this error.
pub fn check_upgrade_deadline(started_ms: u64, now_ms: u64) -> (r: Result<(), Error>)
    ensures
        r is Ok <==> now_ms - started_ms < UPGRADE_TIMEOUT_MILLIS || now_ms < started_ms,
        r matches Err(e) ==> e == Error::UpgradeTimeout,
{
    if now_ms < started_ms {
        return Ok(());
    }
    if now_ms - started_ms < UPGRADE_TIMEOUT_MILLIS {
        Ok(())
    } else {
        Err(Error::UpgradeTimeout)
    }
}

// ---------------------------------------------------------------------------
// The well-known local Tor endpoints.
// ---------------------------------------------------------------------------

/// The default Tor SOCKS5 proxy endpoint, `127.0.0.1:9050`.
pub fn tor_proxy_addr() -> (r: ((u8, u8, u8, u8), u16))
    ensures
        r == ((127u8, 0u8, 0u8, 1u8), 9050u16),
{
    ((127, 0, 0, 1), 9050)
}

/// The default Tor control-port endpoint, `127.0.0.1:9051`.
pub fn tor_control_addr() -> (r: ((u8, u8, u8, u8), u16))
    ensures
        r == ((127u8, 0u8, 0u8, 1u8), 9051u16),
{
    ((127, 0, 0, 1), 9051)
}

} // verus!
