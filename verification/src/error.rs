use vstd::prelude::*;

verus! {

/// The error taxonomy of the library.
///
/// `InvalidAddress` and `UnsupportedAddress` concern the address model;
/// `ProcessSpawn` and the `Control*` variants the Tor daemon and its
/// control port; `OnionRegister` the hidden-service registration;
/// `Socks*` the SOCKS5 egress; the remainder the transport upgrade and
/// the ping protocol, with `Io` as the catch-all for lower-level faults.
#[derive(Clone, Copy, Debug, PartialEq, Eq, Structural)]
pub enum Error {
    /// Malformed multi-address or onion segment.
    InvalidAddress,
    /// Address shape not routable by the transport.
    UnsupportedAddress,
    /// The Tor daemon could not be started.
    ProcessSpawn,
    /// The control port could not be reached.
    ControlConnect,
    /// Authentication on the control port failed.
    ControlAuth,
    /// The control port answered outside its protocol.
    ControlProtocol,
    /// The hidden-service registration was rejected.
    OnionRegister,
    /// The SOCKS5 greeting or method negotiation failed.
    SocksHandshake,
    /// The SOCKS5 proxy refused the connection.
    SocksConnect,
    /// Name resolution failed.
    DnsResolve,
    /// Peer authentication failed or the peer identity did not match.
    AuthHandshake,
    /// The composite connection upgrade exceeded its deadline.
    UpgradeTimeout,
    /// The echoed ping bytes did not match the request.
    ProtocolViolation,
    /// Any other input/output fault.
    Io,
}

} // verus!
