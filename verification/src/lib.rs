//! A minimal peer-to-peer liveness probe ("ping-pong") carried through the
//! Tor anonymity network.
//!
//! The library holds the logic of the stack: the multi-layer address model
//! and its onion-v3 form, the routing decision that sends onion targets
//! through a SOCKS5 proxy, the SOCKS5 and Tor control-port wire formats,
//! the hidden-service registration session, and the ping liveness state
//! machine.  The surrounding program supplies the sockets, the clock and
//! the Tor child process, and hands this library plain values.

pub mod base32;
pub mod bytes;
pub mod cli;
pub mod control;
pub mod error;
pub mod multiaddr;
pub mod onion;
pub mod ping;
pub mod route;
pub mod socks;
