use vstd::prelude::*;

use crate::base32;
use crate::bytes;
use crate::bytes::{chars_of, dec_seq, render_dec_u16};
use crate::error::Error;
use crate::multiaddr::{wf_segs, MultiAddr, SegView, Segment};

verus! {

// ---------------------------------------------------------------------------
// The Tor v3 onion address model.
//
// An onion endpoint is named by 35 bytes: the 32 bytes of an Ed25519
// public key, then two checksum bytes, then the version byte 3.  The
// checksum is the first two bytes of SHA3-256 over the fixed prefix
// `.onion checksum`, the key, and the version byte.  The 35 bytes are
// written as 56 base32 characters; with the virtual port they form
// either the `<base32>.onion:<port>` string or an `/onion3/` segment.
// ---------------------------------------------------------------------------

/// The digest that the checksum is drawn from.  Computed by the
/// `sha3` crate; a function of the input bytes alone.
pub uninterp spec fn sha3_256_of(data: Seq<u8>) -> Seq<u8>;

/// Relies on sha3's `Sha3_256`: the digest depends on the input bytes
/// alone and is exactly 32 bytes long.
#[verifier::external_body]
fn sha3_256(data: &Vec<u8>) -> (r: Vec<u8>)
    ensures
        r@ == sha3_256_of(data@),
        r@.len() == 32,
{
    let digest = <sha3::Sha3_256 as sha3::Digest>::digest(data.as_slice());
    digest.to_vec()
}

/// Relies on std's `String::from_utf8`: bytes below 128 are ASCII, so
/// the call succeeds and yields one character per byte.
#[verifier::external_body]
pub(crate) fn ascii_string(bytes: &Vec<u8>) -> (r: String)
    requires
        forall|i: int| 0 <= i < bytes@.len() ==> bytes@[i] < 128,
    ensures
        r@ == chars_of(bytes@),
{
    String::from_utf8(bytes.clone()).unwrap_or_default()
}

/// The bytes of the checksum prefix `.onion checksum`.
pub open spec fn checksum_prefix() -> Seq<u8> {
    seq![46u8, 111u8, 110u8, 105u8, 111u8, 110u8, 32u8, 99u8, 104u8, 101u8, 99u8, 107u8, 115u8, 117u8, 109u8]
}

/// What the checksum digest is computed over: prefix, key, version.
pub open spec fn checksum_input(pk: Seq<u8>) -> Seq<u8> {
    checksum_prefix() + pk + seq![3u8]
}

/// The two checksum bytes of a public key: the first two bytes of the
/// digest.
pub open spec fn onion_checksum(pk: Seq<u8>) -> Seq<u8> {
    seq![sha3_256_of(checksum_input(pk))[0], sha3_256_of(checksum_input(pk))[1]]
}

/// The 35 bytes naming an onion endpoint: key, checksum, version.
pub open spec fn onion_bytes(pk: Seq<u8>) -> Seq<u8> {
    pk + onion_checksum(pk) + seq![3u8]
}

/// Whether 35 bytes are a sound onion endpoint name: version byte 3
/// and a checksum that matches the key.
pub open spec fn onion_key_wf(key: Seq<u8>) -> bool {
    &&& key.len() == 35
    &&& key[34] == 3
    &&& key.subrange(32, 34) == onion_checksum(key.subrange(0, 32))
}

/// The onion endpoint named by an address, if the address ends in a
/// sound `onion3` segment.
pub open spec fn onion_of_segs(svs: Seq<SegView>) -> Option<(Seq<u8>, u16)> {
    if svs.len() > 0 {
        match svs.last() {
            SegView::Onion3(key, port) => {
                if onion_key_wf(key) {
                    Some((key, port))
                } else {
                    None
                }
            },
            _ => None,
        }
    } else {
        None
    }
}

/// The bytes of the string form, `<56 base32 chars>.onion:<port>`.
pub open spec fn address_text(key: Seq<u8>, port: u16) -> Seq<u8> {
    base32::b32_encode(key) + dot_onion_colon() + dec_seq(port as int)
}

/// The bytes of `.onion:`.
pub open spec fn dot_onion_colon() -> Seq<u8> {
    seq![46u8, 111u8, 110u8, 105u8, 111u8, 110u8, 58u8]
}

/// A Tor v3 onion address together with its virtual port.
#[derive(Clone, Debug, PartialEq, Eq)]
pub struct OnionAddr {
    /// The 35 bytes of the endpoint name: key, checksum, version.
    pub key: Vec<u8>,
    /// The virtual port of the service.
    pub port: u16,
}

impl OnionAddr {
    /// Structural soundness: 35 bytes, version 3, matching checksum.
    pub open spec fn wf(&self) -> bool {
        onion_key_wf(self.key@)
    }

    /// Build the address of a public key: append the derived checksum
    /// and the version byte.
    pub fn from_public_key(pk: &Vec<u8>, port: u16) -> (r: OnionAddr)
        requires
            pk@.len() == 32,
        ensures
            r.key@ == onion_bytes(pk@),
            r.port == port,
            r.wf(),
    {
        let mut input: Vec<u8> = Vec::new();
        input.push(46);
        input.push(111);
        input.push(110);
        input.push(105);
        input.push(111);
        input.push(110);
        input.push(32);
        input.push(99);
        input.push(104);
        input.push(101);
        input.push(99);
        input.push(107);
        input.push(115);
        input.push(117);
        input.push(109);
        crate::multiaddr::push_all(&mut input, pk.as_slice());
        input.push(3);
        proof {
            assert(input@ =~= checksum_input(pk@));
        }
        let digest = sha3_256(&input);
        let mut key: Vec<u8> = Vec::new();
        crate::multiaddr::push_all(&mut key, pk.as_slice());
        key.push(digest[0]);
        key.push(digest[1]);
        key.push(3);
        proof {
            assert(onion_checksum(pk@) =~= seq![digest@[0], digest@[1]]);
            assert(key@ =~= onion_bytes(pk@));
            assert(key@.subrange(0, 32) =~= pk@);
            assert(key@.subrange(32, 34) =~= onion_checksum(pk@));
        }
        OnionAddr { key, port }
    }

    /// Read the address out of a multi-layer address.
    ///
    /// Succeeds exactly when the terminal segment is `onion3` with
    /// version byte 3 and a checksum that matches its key, recomputed
    /// here rather than trusted; every other address is rejected as
    /// `InvalidAddress`.
    pub fn from_multiaddr(m: &MultiAddr) -> (r: Result<OnionAddr, Error>)
        ensures
            r is Ok <==> onion_of_segs(m@) is Some,
            r matches Ok(a) ==> onion_of_segs(m@) == Some((a.key@, a.port)) && a.wf(),
            r matches Err(e) ==> e == Error::InvalidAddress,
    {
        match m.last_segment() {
            Some(seg) => match seg {
                Segment::Onion3(key, port) => {
                    if key.len() != 35 {
                        return Err(Error::InvalidAddress);
                    }
                    if key[34] != 3 {
                        return Err(Error::InvalidAddress);
                    }
                    let pk = bytes::copy_range(key.as_slice(), 0, 32);
                    let checked = Self::from_public_key(&pk, *port);
                    let ok = bytes::bytes_equal(key.as_slice(), checked.key.as_slice());
                    if ok {
                        proof {
                            assert(key@.subrange(32, 34) =~= onion_bytes(pk@).subrange(32, 34));
                            assert(onion_bytes(pk@).subrange(32, 34) =~= onion_checksum(pk@));
                        }
                        Ok(checked)
                    } else {
                        proof {
                            if onion_key_wf(key@) {
                                assert(key@ =~= onion_bytes(key@.subrange(0, 32)));
                            }
                        }
                        Err(Error::InvalidAddress)
                    }
                },
                _ => Err(Error::InvalidAddress),
            },
            None => Err(Error::InvalidAddress),
        }
    }

    /// Read the address out of a hidden-service identifier: the 56
    /// base32 characters that name the 35 endpoint bytes.
    pub fn from_service_id(id: &[u8], port: u16) -> (r: Result<OnionAddr, Error>)
        ensures
            r is Ok <==> id@.len() == 56 && (forall|i: int|
                0 <= i < 56 ==> base32::is_b32(#[trigger] id@[i])) && onion_key_wf(
                base32::b32_decode(id@),
            ),
            r matches Ok(a) ==> a.key@ == base32::b32_decode(id@) && a.port == port && a.wf(),
            r matches Err(e) ==> e == Error::InvalidAddress,
    {
        if id.len() != 56 {
            return Err(Error::InvalidAddress);
        }
        let key = match base32::decode(id) {
            Some(k) => k,
            None => {
                return Err(Error::InvalidAddress);
            },
        };
        proof {
            base32::lemma_b32_encode_decode(id@);
        }
        let mut segs: Vec<Segment> = Vec::new();
        segs.push(Segment::Onion3(key, port));
        let m = MultiAddr { segs };
        proof {
            assert(m@ =~= seq![SegView::Onion3(base32::b32_decode(id@), port)]);
        }
        Self::from_multiaddr(&m)
    }

    /// Test structural soundness, checksum recomputed, so that a
    /// caller outside verified code can establish what
    /// [`Self::address`] asks for.
    pub fn is_well_formed(&self) -> (r: bool)
        ensures
            r == self.wf(),
    {
        if self.key.len() != 35 {
            return false;
        }
        if self.key[34] != 3 {
            return false;
        }
        let pk = bytes::copy_range(self.key.as_slice(), 0, 32);
        let checked = Self::from_public_key(&pk, self.port);
        let r = bytes::bytes_equal(self.key.as_slice(), checked.key.as_slice());
        proof {
            if r {
                assert(self.key@.subrange(32, 34) =~= onion_bytes(pk@).subrange(32, 34));
                assert(onion_bytes(pk@).subrange(32, 34) =~= onion_checksum(pk@));
            } else {
                if onion_key_wf(self.key@) {
                    assert(self.key@ =~= onion_bytes(self.key@.subrange(0, 32)));
                }
            }
        }
        r
    }

    /// The string form, `<56 base32 chars>.onion:<port>`.
    pub fn address(&self) -> (r: String)
        requires
            self.wf(),
        ensures
            r@ == chars_of(address_text(self.key@, self.port)),
    {
        let mut out = base32::encode(self.key.as_slice());
        proof {
            base32::lemma_b32_decode_encode(self.key@);
        }
        out.push(46);
        out.push(111);
        out.push(110);
        out.push(105);
        out.push(111);
        out.push(110);
        out.push(58);
        let t = render_dec_u16(self.port);
        crate::multiaddr::push_all(&mut out, t.as_slice());
        proof {
            assert(out@ =~= address_text(self.key@, self.port));
            crate::bytes::lemma_dec_round_trip(self.port as int);
            assert(forall|i: int| 0 <= i < out@.len() ==> out@[i] < 128) by {
                assert(forall|i: int|
                    0 <= i < base32::b32_encode(self.key@).len() ==> base32::is_b32(
                        #[trigger] base32::b32_encode(self.key@)[i],
                    ));
                assert(forall|i: int|
                    0 <= i < dec_seq(self.port as int).len() ==> crate::bytes::is_digit(
                        #[trigger] dec_seq(self.port as int)[i],
                    ));
            }
        }
        ascii_string(&out)
    }

    /// The string form of an address that may not be sound: the
    /// checksum is tested first, and the endpoint is named only when
    /// it holds.
    pub fn checked_address(&self) -> (r: Option<String>)
        ensures
            r is Some <==> self.wf(),
            r matches Some(s) ==> s@ == chars_of(address_text(self.key@, self.port)),
    {
        if self.is_well_formed() {
            Some(self.address())
        } else {
            None
        }
    }

    /// The multi-layer form: a single `/onion3/` segment.
    pub fn multiaddr(&self) -> (r: MultiAddr)
        ensures
            r@ == seq![SegView::Onion3(self.key@, self.port)],
            self.wf() ==> wf_segs(r@),
    {
        let key = bytes::copy_range(self.key.as_slice(), 0, self.key.len());
        proof {
            assert(key@ =~= self.key@);
        }
        let mut segs: Vec<Segment> = Vec::new();
        segs.push(Segment::Onion3(key, self.port));
        let r = MultiAddr { segs };
        proof {
            assert(r@ =~= seq![SegView::Onion3(self.key@, self.port)]);
        }
        r
    }
}

// ---------------------------------------------------------------------------
// Laws of the model.
// ---------------------------------------------------------------------------

/// Round trip: the multi-layer form of an address built from a key
/// names exactly that address — reading it back yields the same 35
/// bytes and the same port.
pub proof fn lemma_onion_round_trip(pk: Seq<u8>, port: u16)
    requires
        pk.len() == 32,
    ensures
        onion_of_segs(seq![SegView::Onion3(onion_bytes(pk), port)]) == Some(
            (onion_bytes(pk), port),
        ),
{
    let key = onion_bytes(pk);
    assert(key.len() == 35);
    assert(key[34] == 3);
    assert(key.subrange(0, 32) =~= pk);
    assert(key.subrange(32, 34) =~= onion_checksum(pk));
}

/// An address whose terminal segment is not `onion3` names no onion
/// endpoint.
pub proof fn lemma_non_onion_rejected(svs: Seq<SegView>)
    requires
        svs.len() == 0 || !(svs.last() is Onion3),
    ensures
        onion_of_segs(svs) is None,
{
}

} // verus!
