use vstd::prelude::*;

use vstd::utf8::encode_utf8;

use crate::error::Error;
use crate::multiaddr::{parse_spec, wf_segs, MultiAddr};
use crate::onion::{onion_of_segs, OnionAddr};

verus! {

// ---------------------------------------------------------------------------
// The command-line surface, as plain values, and the decision it
// drives: which mode the node runs in and on which address.  The
// argument parsing itself lives outside the library; what arrives
// here is already a pair of flags and an optional address string.
// ---------------------------------------------------------------------------

/// The parsed command line.
#[derive(Clone, Debug, PartialEq, Eq)]
pub struct Opt {
    /// Run as the dialer, the end that sends the probes.
    pub dialer: bool,
    /// Run as the listener, the end that answers them (the default).
    pub listener: bool,
    /// The target address (dialer) or local listen address (listener).
    pub address: Option<String>,
}

/// The mode the node runs in, with its parsed address.
#[derive(Clone, Debug, PartialEq, Eq)]
pub enum Mode {
    /// Dial the address and probe it.
    Dialer(MultiAddr),
    /// Listen on the address.
    Listener(MultiAddr),
}

/// The bytes of the default listen address, `/ip4/127.0.0.1/tcp/7777`.
pub open spec fn default_listen_text() -> Seq<u8> {
    seq![
        47u8, 105u8, 112u8, 52u8, 47u8, 49u8, 50u8, 55u8, 46u8, 48u8, 46u8, 48u8, 46u8, 49u8, 47u8,
        116u8, 99u8, 112u8, 47u8, 55u8, 55u8, 55u8, 55u8,
    ]
}

/// Build the default listen address text.
pub fn default_listen_vec() -> (r: Vec<u8>)
    ensures
        r@ == default_listen_text(),
{
    let mut r: Vec<u8> = Vec::new();
    r.push(47);
    r.push(105);
    r.push(112);
    r.push(52);
    r.push(47);
    r.push(49);
    r.push(50);
    r.push(55);
    r.push(46);
    r.push(48);
    r.push(46);
    r.push(48);
    r.push(46);
    r.push(49);
    r.push(47);
    r.push(116);
    r.push(99);
    r.push(112);
    r.push(47);
    r.push(55);
    r.push(55);
    r.push(55);
    r.push(55);
    proof {
        assert(r@ =~= default_listen_text());
    }
    r
}

/// The listen-address text the options ask for: the given address, or
/// the default.
pub open spec fn listen_text_of(opt: &Opt) -> Seq<u8> {
    match opt.address {
        Some(s) => encode_utf8(s@),
        None => default_listen_text(),
    }
}

/// Whether a multi-layer address ends in a sound onion endpoint.
pub fn is_valid_onion_addr(m: &MultiAddr) -> (r: bool)
    ensures
        r == (onion_of_segs(m@) is Some),
{
    OnionAddr::from_multiaddr(m).is_ok()
}

/// Decide the mode from the options.
///
/// The dialer needs an address; the listener takes the given one or
/// the default local one.  Either way the address need only be
/// well-formed text — malformed text is rejected as `InvalidAddress`
/// before any network work, while whether a shape can be dialed is
/// the transport's question, answered per dial.
pub fn select_mode(opt: &Opt) -> (r: Result<Mode, Error>)
    ensures
        opt.dialer && opt.address is None ==> (r matches Err(e) && e == Error::InvalidAddress),
        opt.dialer ==> (opt.address matches Some(s) ==> {
            &&& (r is Ok <==> parse_spec(encode_utf8(s@)) is Some)
            &&& (r matches Ok(m) ==> m matches Mode::Dialer(a) && Some(a@) == parse_spec(
                encode_utf8(s@),
            ) && wf_segs(a@))
            &&& (r matches Err(e) ==> e == Error::InvalidAddress)
        }),
        !opt.dialer ==> {
            &&& (r is Ok <==> parse_spec(listen_text_of(opt)) is Some)
            &&& (r matches Ok(m) ==> m matches Mode::Listener(a) && Some(a@) == parse_spec(
                listen_text_of(opt),
            ) && wf_segs(a@))
            &&& (r matches Err(e) ==> e == Error::InvalidAddress)
        },
{
    if opt.dialer {
        match &opt.address {
            Some(s) => {
                match MultiAddr::parse(s.as_str().as_bytes()) {
                    Ok(m) => Ok(Mode::Dialer(m)),
                    Err(e) => Err(e),
                }
            },
            None => Err(Error::InvalidAddress),
        }
    } else {
        let m = match &opt.address {
            Some(s) => MultiAddr::parse(s.as_str().as_bytes()),
            None => {
                let d = default_listen_vec();
                MultiAddr::parse(d.as_slice())
            },
        };
        match m {
            Ok(m) => Ok(Mode::Listener(m)),
            Err(e) => Err(e),
        }
    }
}

} // verus!
