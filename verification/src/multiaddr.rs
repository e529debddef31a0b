use vstd::prelude::*;

use crate::base32;
use crate::base32::{b32_decode, b32_encode, is_b32, ASCII_LOWER_Z};
use crate::bytes::{
    dec_seq, dec_val, hexn_seq, hexn_val, is_canon_dec, is_canon_hexn, is_digit, parse_dec_u16,
    parse_hexn_u16, render_dec_u16, render_hexn_u16, ASCII_COLON, ASCII_DASH, ASCII_DOT,
    ASCII_LOWER_A, ASCII_SLASH,
};

verus! {

// ---------------------------------------------------------------------------
// The multi-layer address model: an ordered sequence of labeled protocol
// segments, written `/<label>/<value>` one after another.  The textual
// subset understood here is
//
//     /ip4/<dotted-quad>
//     /ip6/<eight lower-case hex groups, colon-separated>
//     /dns4/<name>
//     /tcp/<port>
//     /onion3/<56 base32 characters>:<port>
//
// A segment value never contains `/`, so the text of an address splits
// on `/` into label/value pairs.
// ---------------------------------------------------------------------------

/// One labeled protocol segment.
#[derive(Clone, Debug, PartialEq, Eq)]
pub enum Segment {
    /// An IPv4 host address.
    Ip4(u8, u8, u8, u8),
    /// An IPv6 host address, as eight sixteen-bit groups.
    Ip6(u16, u16, u16, u16, u16, u16, u16, u16),
    /// A DNS name resolving to an IPv4 address.
    Dns4(Vec<u8>),
    /// A TCP port.
    Tcp(u16),
    /// A Tor v3 onion endpoint: 35 bytes (public key, checksum,
    /// version) and a virtual port.
    Onion3(Vec<u8>, u16),
}

/// The mathematical model of a segment.
pub enum SegView {
    /// An IPv4 host address.
    Ip4(u8, u8, u8, u8),
    /// An IPv6 host address.
    Ip6(Seq<u16>),
    /// A DNS name.
    Dns4(Seq<u8>),
    /// A TCP port.
    Tcp(u16),
    /// A Tor v3 onion endpoint.
    Onion3(Seq<u8>, u16),
}

impl View for Segment {
    type V = SegView;

    open spec fn view(&self) -> SegView {
        match self {
            Segment::Ip4(a, b, c, d) => SegView::Ip4(*a, *b, *c, *d),
            Segment::Ip6(g0, g1, g2, g3, g4, g5, g6, g7) => SegView::Ip6(
                seq![*g0, *g1, *g2, *g3, *g4, *g5, *g6, *g7],
            ),
            Segment::Dns4(name) => SegView::Dns4(name@),
            Segment::Tcp(port) => SegView::Tcp(*port),
            Segment::Onion3(key, port) => SegView::Onion3(key@, *port),
        }
    }
}

/// Whether `c` may appear in a DNS name here: lower-case letters,
/// digits, dash and dot.
pub open spec fn is_dns_char(c: u8) -> bool {
    is_digit(c) || (ASCII_LOWER_A <= c && c <= ASCII_LOWER_Z) || c == ASCII_DASH || c == ASCII_DOT
}

/// Structural soundness of one segment.
pub open spec fn seg_wf(sv: SegView) -> bool {
    match sv {
        SegView::Ip6(gs) => gs.len() == 8,
        SegView::Dns4(name) => name.len() >= 1 && forall|i: int|
            0 <= i < name.len() ==> is_dns_char(#[trigger] name[i]),
        SegView::Onion3(key, _port) => key.len() == 35,
        _ => true,
    }
}

/// Structural soundness of a whole address.
pub open spec fn wf_segs(svs: Seq<SegView>) -> bool {
    forall|i: int| 0 <= i < svs.len() ==> seg_wf(#[trigger] svs[i])
}

/// The bytes of the label `ip4`.
pub open spec fn label_ip4() -> Seq<u8> {
    seq![105u8, 112u8, 52u8]
}

/// The bytes of the label `ip6`.
pub open spec fn label_ip6() -> Seq<u8> {
    seq![105u8, 112u8, 54u8]
}

/// The bytes of the label `dns4`.
pub open spec fn label_dns4() -> Seq<u8> {
    seq![100u8, 110u8, 115u8, 52u8]
}

/// The bytes of the label `tcp`.
pub open spec fn label_tcp() -> Seq<u8> {
    seq![116u8, 99u8, 112u8]
}

/// The bytes of the label `onion3`.
pub open spec fn label_onion3() -> Seq<u8> {
    seq![111u8, 110u8, 105u8, 111u8, 110u8, 51u8]
}

// ---------------------------------------------------------------------------
// Splitting on a separator byte.
// ---------------------------------------------------------------------------

/// The pieces of `s` between occurrences of `sep`: always one more
/// piece than separators, and empty pieces are kept.
pub open spec fn split_sep(s: Seq<u8>, sep: u8) -> Seq<Seq<u8>>
    decreases s.len(),
{
    if s.len() == 0 {
        seq![Seq::<u8>::empty()]
    } else {
        let rest = split_sep(s.drop_last(), sep);
        if s.last() == sep {
            rest + seq![Seq::<u8>::empty()]
        } else {
            rest.update(rest.len() - 1, rest.last().push(s.last()))
        }
    }
}

/// Splitting yields at least one piece.
pub proof fn lemma_split_sep_len(s: Seq<u8>, sep: u8)
    ensures
        split_sep(s, sep).len() >= 1,
    decreases s.len(),
{
    if s.len() > 0 {
        lemma_split_sep_len(s.drop_last(), sep);
    }
}

/// Split the bytes of `s` from position `from` on at each `sep`.
pub fn split_from(s: &[u8], from: usize, sep: u8) -> (r: Vec<Vec<u8>>)
    requires
        from <= s@.len(),
    ensures
        r@.map_values(|v: Vec<u8>| v@) == split_sep(s@.skip(from as int), sep),
{
    let ghost t = s@.skip(from as int);
    let mut out: Vec<Vec<u8>> = Vec::new();
    let mut cur: Vec<u8> = Vec::new();
    let mut i: usize = from;
    while i < s.len()
        invariant
            from <= i <= s@.len(),
            t == s@.skip(from as int),
            out@.map_values(|v: Vec<u8>| v@) + seq![cur@] == split_sep(t.take(i - from), sep),
        decreases s@.len() - i,
    {
        let c = s[i];
        proof {
            assert(t.take(i + 1 - from).drop_last() =~= t.take(i - from));
            assert(t.take(i + 1 - from).last() == s@[i as int]);
            lemma_split_sep_len(t.take(i - from), sep);
        }
        if c == sep {
            out.push(cur);
            cur = Vec::new();
            proof {
                assert(out@.map_values(|v: Vec<u8>| v@) + seq![cur@] =~= split_sep(
                    t.take(i + 1 - from),
                    sep,
                ));
            }
        } else {
            cur.push(c);
            proof {
                let prev = split_sep(t.take(i - from), sep);
                assert(prev.last() == seq![cur@.drop_last()].last());
                assert(out@.map_values(|v: Vec<u8>| v@) + seq![cur@] =~= split_sep(
                    t.take(i + 1 - from),
                    sep,
                ));
            }
        }
        i += 1;
    }
    proof {
        assert(t.take(i - from) =~= t);
    }
    out.push(cur);
    proof {
        assert(out@.map_values(|v: Vec<u8>| v@) =~= split_sep(t, sep));
    }
    out
}

// ---------------------------------------------------------------------------
// The grammar, segment by segment.
// ---------------------------------------------------------------------------

/// The eight-bit value of a canonical decimal numeral, if it is one.
pub open spec fn dec8_of(s: Seq<u8>) -> Option<u8> {
    if is_canon_dec(s) && dec_val(s) <= 255 {
        Some(dec_val(s) as u8)
    } else {
        None
    }
}

/// The sixteen-bit value of a canonical decimal numeral, if it is one.
pub open spec fn dec16_of(s: Seq<u8>) -> Option<u16> {
    if is_canon_dec(s) && dec_val(s) <= 65535 {
        Some(dec_val(s) as u16)
    } else {
        None
    }
}

/// The sixteen-bit value of a canonical hexadecimal numeral, if it is
/// one.
pub open spec fn hex16_of(s: Seq<u8>) -> Option<u16> {
    if is_canon_hexn(s) && hexn_val(s) <= 65535 {
        Some(hexn_val(s) as u16)
    } else {
        None
    }
}

/// An `ip4` value: four canonical decimal octets joined by dots.
pub open spec fn ip4_of(value: Seq<u8>) -> Option<SegView> {
    let ps = split_sep(value, ASCII_DOT);
    if ps.len() == 4 && dec8_of(ps[0]) is Some && dec8_of(ps[1]) is Some && dec8_of(ps[2]) is Some
        && dec8_of(ps[3]) is Some {
        Some(
            SegView::Ip4(
                dec8_of(ps[0])->0,
                dec8_of(ps[1])->0,
                dec8_of(ps[2])->0,
                dec8_of(ps[3])->0,
            ),
        )
    } else {
        None
    }
}

/// An `ip6` value: eight canonical hexadecimal groups joined by colons.
pub open spec fn ip6_of(value: Seq<u8>) -> Option<SegView> {
    let ps = split_sep(value, ASCII_COLON);
    if ps.len() == 8 && forall|i: int| 0 <= i < 8 ==> hex16_of(#[trigger] ps[i]) is Some {
        Some(
            SegView::Ip6(
                seq![
                    hex16_of(ps[0])->0,
                    hex16_of(ps[1])->0,
                    hex16_of(ps[2])->0,
                    hex16_of(ps[3])->0,
                    hex16_of(ps[4])->0,
                    hex16_of(ps[5])->0,
                    hex16_of(ps[6])->0,
                    hex16_of(ps[7])->0,
                ],
            ),
        )
    } else {
        None
    }
}

/// A `dns4` value: a non-empty name of DNS characters.
pub open spec fn dns4_of(value: Seq<u8>) -> Option<SegView> {
    if value.len() >= 1 && forall|i: int| 0 <= i < value.len() ==> is_dns_char(#[trigger] value[i]) {
        Some(SegView::Dns4(value))
    } else {
        None
    }
}

/// A `tcp` value: a canonical decimal port.
pub open spec fn tcp_of(value: Seq<u8>) -> Option<SegView> {
    match dec16_of(value) {
        Some(p) => Some(SegView::Tcp(p)),
        None => None,
    }
}

/// An `onion3` value: 56 base32 characters, a colon, and a canonical
/// decimal port.  The characters name the 35 bytes of the endpoint.
pub open spec fn onion3_of(value: Seq<u8>) -> Option<SegView> {
    let ps = split_sep(value, ASCII_COLON);
    if ps.len() == 2 && ps[0].len() == 56 && (forall|i: int|
        0 <= i < 56 ==> is_b32(#[trigger] ps[0][i])) && dec16_of(ps[1]) is Some {
        Some(SegView::Onion3(b32_decode(ps[0]), dec16_of(ps[1])->0))
    } else {
        None
    }
}

/// The segment named by a label/value pair, if any.
pub open spec fn seg_of(label: Seq<u8>, value: Seq<u8>) -> Option<SegView> {
    if label == label_ip4() {
        ip4_of(value)
    } else if label == label_ip6() {
        ip6_of(value)
    } else if label == label_dns4() {
        dns4_of(value)
    } else if label == label_tcp() {
        tcp_of(value)
    } else if label == label_onion3() {
        onion3_of(value)
    } else {
        None
    }
}

/// The segments named by a list of components, two components per
/// segment, if the list parses.
pub open spec fn parse_components(cs: Seq<Seq<u8>>) -> Option<Seq<SegView>>
    decreases cs.len(),
{
    if cs.len() == 0 {
        Some(Seq::<SegView>::empty())
    } else if cs.len() == 1 {
        None
    } else {
        match seg_of(cs[0], cs[1]) {
            Some(seg) => match parse_components(cs.skip(2)) {
                Some(rest) => Some(seq![seg] + rest),
                None => None,
            },
            None => None,
        }
    }
}

/// The address named by a text, if the text is a well-formed address:
/// it starts with `/` and its components pair up into segments.
pub open spec fn parse_spec(s: Seq<u8>) -> Option<Seq<SegView>> {
    if s.len() == 0 || s[0] != ASCII_SLASH {
        None
    } else {
        parse_components(split_sep(s.skip(1), ASCII_SLASH))
    }
}

// ---------------------------------------------------------------------------
// Rendering.
// ---------------------------------------------------------------------------

/// The label of a segment.
pub open spec fn seg_label(sv: SegView) -> Seq<u8> {
    match sv {
        SegView::Ip4(_, _, _, _) => label_ip4(),
        SegView::Ip6(_) => label_ip6(),
        SegView::Dns4(_) => label_dns4(),
        SegView::Tcp(_) => label_tcp(),
        SegView::Onion3(_, _) => label_onion3(),
    }
}

/// The value text of a segment.
pub open spec fn seg_value(sv: SegView) -> Seq<u8> {
    match sv {
        SegView::Ip4(a, b, c, d) => dec_seq(a as int) + seq![ASCII_DOT] + dec_seq(b as int)
            + seq![ASCII_DOT] + dec_seq(c as int) + seq![ASCII_DOT] + dec_seq(d as int),
        SegView::Ip6(gs) => hexn_seq(gs[0] as int) + seq![ASCII_COLON] + hexn_seq(gs[1] as int)
            + seq![ASCII_COLON] + hexn_seq(gs[2] as int) + seq![ASCII_COLON] + hexn_seq(
            gs[3] as int,
        ) + seq![ASCII_COLON] + hexn_seq(gs[4] as int) + seq![ASCII_COLON] + hexn_seq(gs[5] as int)
            + seq![ASCII_COLON] + hexn_seq(gs[6] as int) + seq![ASCII_COLON] + hexn_seq(
            gs[7] as int,
        ),
        SegView::Dns4(name) => name,
        SegView::Tcp(port) => dec_seq(port as int),
        SegView::Onion3(key, port) => b32_encode(key) + seq![ASCII_COLON] + dec_seq(port as int),
    }
}

/// The text of one segment, `/<label>/<value>`.
pub open spec fn seg_text(sv: SegView) -> Seq<u8> {
    seq![ASCII_SLASH] + seg_label(sv) + seq![ASCII_SLASH] + seg_value(sv)
}

/// The text of a whole address: its segments' texts, in order.
pub open spec fn render_spec(svs: Seq<SegView>) -> Seq<u8>
    decreases svs.len(),
{
    if svs.len() == 0 {
        Seq::<u8>::empty()
    } else {
        render_spec(svs.drop_last()) + seg_text(svs.last())
    }
}

// ---------------------------------------------------------------------------
// The address type.
// ---------------------------------------------------------------------------

/// A multi-layer address: an ordered sequence of labeled segments.
#[derive(Clone, Debug, PartialEq, Eq)]
pub struct MultiAddr {
    /// The segments, outermost first.
    pub segs: Vec<Segment>,
}

impl View for MultiAddr {
    type V = Seq<SegView>;

    open spec fn view(&self) -> Seq<SegView> {
        self.segs@.map_values(|seg: Segment| seg@)
    }
}

/// Append the bytes of `src` to `dst`.
pub fn push_all(dst: &mut Vec<u8>, src: &[u8])
    ensures
        final(dst)@ == old(dst)@ + src@,
{
    let mut i: usize = 0;
    while i < src.len()
        invariant
            0 <= i <= src@.len(),
            dst@ == old(dst)@ + src@.take(i as int),
        decreases src@.len() - i,
    {
        dst.push(src[i]);
        proof {
            assert(old(dst)@ + src@.take(i + 1) =~= (old(dst)@ + src@.take(i as int)).push(
                src@[i as int],
            ));
        }
        i += 1;
    }
    proof {
        assert(src@.take(i as int) =~= src@);
    }
}

/// The bytes of the label `ip4`.
fn label_ip4_vec() -> (r: Vec<u8>)
    ensures
        r@ == label_ip4(),
{
    let mut r: Vec<u8> = Vec::new();
    r.push(105);
    r.push(112);
    r.push(52);
    proof {
        assert(r@ =~= label_ip4());
    }
    r
}

/// The bytes of the label `ip6`.
fn label_ip6_vec() -> (r: Vec<u8>)
    ensures
        r@ == label_ip6(),
{
    let mut r: Vec<u8> = Vec::new();
    r.push(105);
    r.push(112);
    r.push(54);
    proof {
        assert(r@ =~= label_ip6());
    }
    r
}

/// The bytes of the label `dns4`.
fn label_dns4_vec() -> (r: Vec<u8>)
    ensures
        r@ == label_dns4(),
{
    let mut r: Vec<u8> = Vec::new();
    r.push(100);
    r.push(110);
    r.push(115);
    r.push(52);
    proof {
        assert(r@ =~= label_dns4());
    }
    r
}

/// The bytes of the label `tcp`.
fn label_tcp_vec() -> (r: Vec<u8>)
    ensures
        r@ == label_tcp(),
{
    let mut r: Vec<u8> = Vec::new();
    r.push(116);
    r.push(99);
    r.push(112);
    proof {
        assert(r@ =~= label_tcp());
    }
    r
}

/// The bytes of the label `onion3`.
fn label_onion3_vec() -> (r: Vec<u8>)
    ensures
        r@ == label_onion3(),
{
    let mut r: Vec<u8> = Vec::new();
    r.push(111);
    r.push(110);
    r.push(105);
    r.push(111);
    r.push(110);
    r.push(51);
    proof {
        assert(r@ =~= label_onion3());
    }
    r
}

/// A fresh copy of a byte vector.
fn copy_bytes(src: &Vec<u8>) -> (r: Vec<u8>)
    ensures
        r@ == src@,
{
    let mut r: Vec<u8> = Vec::new();
    push_all(&mut r, src.as_slice());
    proof {
        assert(r@ =~= src@);
    }
    r
}

/// Parse a canonical decimal numeral that fits in eight bits.
fn parse_dec_u8(s: &[u8]) -> (r: Option<u8>)
    ensures
        r == dec8_of(s@),
{
    match parse_dec_u16(s) {
        Some(x) => {
            if x <= 255 {
                Some(x as u8)
            } else {
                None
            }
        },
        None => None,
    }
}

/// Parse an `ip4` segment value.
fn parse_ip4_value(value: &Vec<u8>) -> (r: Option<Segment>)
    ensures
        r is Some <==> ip4_of(value@) is Some,
        r matches Some(seg) ==> Some(seg@) == ip4_of(value@) && seg_wf(seg@),
{
    let ps = split_from(value.as_slice(), 0, ASCII_DOT);
    proof {
        assert(value@.skip(0) =~= value@);
    }
    let ghost pviews = ps@.map_values(|v: Vec<u8>| v@);
    if ps.len() != 4 {
        return None;
    }
    let a = match parse_dec_u8(ps[0].as_slice()) {
        Some(x) => x,
        None => {
            return None;
        },
    };
    let b = match parse_dec_u8(ps[1].as_slice()) {
        Some(x) => x,
        None => {
            return None;
        },
    };
    let c = match parse_dec_u8(ps[2].as_slice()) {
        Some(x) => x,
        None => {
            return None;
        },
    };
    let d = match parse_dec_u8(ps[3].as_slice()) {
        Some(x) => x,
        None => {
            return None;
        },
    };
    Some(Segment::Ip4(a, b, c, d))
}

/// Parse an `ip6` segment value.
fn parse_ip6_value(value: &Vec<u8>) -> (r: Option<Segment>)
    ensures
        r is Some <==> ip6_of(value@) is Some,
        r matches Some(seg) ==> Some(seg@) == ip6_of(value@) && seg_wf(seg@),
{
    let ps = split_from(value.as_slice(), 0, ASCII_COLON);
    proof {
        assert(value@.skip(0) =~= value@);
    }
    let ghost pviews = ps@.map_values(|v: Vec<u8>| v@);
    if ps.len() != 8 {
        return None;
    }
    let mut gs: Vec<u16> = Vec::new();
    let mut i: usize = 0;
    while i < 8
        invariant
            0 <= i <= 8,
            ps@.len() == 8,
            pviews == ps@.map_values(|v: Vec<u8>| v@),
            pviews == split_sep(value@, ASCII_COLON),
            gs@.len() == i,
            forall|j: int| 0 <= j < i ==> hex16_of(pviews[j]) == Some(#[trigger] gs@[j]),
        decreases 8 - i,
    {
        match parse_hexn_u16(ps[i].as_slice()) {
            Some(g) => {
                gs.push(g);
            },
            None => {
                proof {
                    assert(hex16_of(pviews[i as int]) is None);
                }
                return None;
            },
        }
        i += 1;
    }
    let seg = Segment::Ip6(gs[0], gs[1], gs[2], gs[3], gs[4], gs[5], gs[6], gs[7]);
    proof {
        assert(forall|j: int| 0 <= j < 8 ==> hex16_of(#[trigger] pviews[j]) is Some);
        assert(seg@ matches SegView::Ip6(v) && v =~= seq![
            hex16_of(pviews[0])->0,
            hex16_of(pviews[1])->0,
            hex16_of(pviews[2])->0,
            hex16_of(pviews[3])->0,
            hex16_of(pviews[4])->0,
            hex16_of(pviews[5])->0,
            hex16_of(pviews[6])->0,
            hex16_of(pviews[7])->0,
        ]);
    }
    Some(seg)
}

/// Whether a byte may appear in a DNS name.
fn is_dns_byte(c: u8) -> (r: bool)
    ensures
        r == is_dns_char(c),
{
    (c >= 48 && c <= 57) || (c >= ASCII_LOWER_A && c <= ASCII_LOWER_Z) || c == ASCII_DASH || c
        == ASCII_DOT
}

/// Parse a `dns4` segment value.
fn parse_dns4_value(value: &Vec<u8>) -> (r: Option<Segment>)
    ensures
        r is Some <==> dns4_of(value@) is Some,
        r matches Some(seg) ==> Some(seg@) == dns4_of(value@) && seg_wf(seg@),
{
    if value.len() == 0 {
        return None;
    }
    let mut i: usize = 0;
    while i < value.len()
        invariant
            0 <= i <= value@.len(),
            forall|j: int| 0 <= j < i ==> is_dns_char(#[trigger] value@[j]),
        decreases value@.len() - i,
    {
        if !is_dns_byte(value[i]) {
            return None;
        }
        i += 1;
    }
    let name = copy_bytes(value);
    Some(Segment::Dns4(name))
}

/// Parse a `tcp` segment value.
fn parse_tcp_value(value: &Vec<u8>) -> (r: Option<Segment>)
    ensures
        r is Some <==> tcp_of(value@) is Some,
        r matches Some(seg) ==> Some(seg@) == tcp_of(value@) && seg_wf(seg@),
{
    match parse_dec_u16(value.as_slice()) {
        Some(p) => Some(Segment::Tcp(p)),
        None => None,
    }
}

/// Parse an `onion3` segment value.
fn parse_onion3_value(value: &Vec<u8>) -> (r: Option<Segment>)
    ensures
        r is Some <==> onion3_of(value@) is Some,
        r matches Some(seg) ==> Some(seg@) == onion3_of(value@) && seg_wf(seg@),
{
    let ps = split_from(value.as_slice(), 0, ASCII_COLON);
    proof {
        assert(value@.skip(0) =~= value@);
    }
    let ghost pviews = ps@.map_values(|v: Vec<u8>| v@);
    if ps.len() != 2 {
        return None;
    }
    if ps[0].len() != 56 {
        return None;
    }
    let key = match base32::decode(ps[0].as_slice()) {
        Some(k) => k,
        None => {
            return None;
        },
    };
    let port = match parse_dec_u16(ps[1].as_slice()) {
        Some(p) => p,
        None => {
            return None;
        },
    };
    proof {
        base32::lemma_b32_encode_decode(pviews[0]);
    }
    Some(Segment::Onion3(key, port))
}

/// Parse one label/value pair into a segment.
fn parse_segment(label: &Vec<u8>, value: &Vec<u8>) -> (r: Option<Segment>)
    ensures
        r is Some <==> seg_of(label@, value@) is Some,
        r matches Some(seg) ==> Some(seg@) == seg_of(label@, value@) && seg_wf(seg@),
{
    let lab = label_ip4_vec();
    if crate::bytes::bytes_equal(label.as_slice(), lab.as_slice()) {
        return parse_ip4_value(value);
    }
    let lab = label_ip6_vec();
    if crate::bytes::bytes_equal(label.as_slice(), lab.as_slice()) {
        return parse_ip6_value(value);
    }
    let lab = label_dns4_vec();
    if crate::bytes::bytes_equal(label.as_slice(), lab.as_slice()) {
        return parse_dns4_value(value);
    }
    let lab = label_tcp_vec();
    if crate::bytes::bytes_equal(label.as_slice(), lab.as_slice()) {
        return parse_tcp_value(value);
    }
    let lab = label_onion3_vec();
    if crate::bytes::bytes_equal(label.as_slice(), lab.as_slice()) {
        return parse_onion3_value(value);
    }
    None
}

impl MultiAddr {
    /// An address with no segments.
    pub fn empty() -> (r: MultiAddr)
        ensures
            r@ == Seq::<SegView>::empty(),
    {
        let r = MultiAddr { segs: Vec::new() };
        proof {
            assert(r@ =~= Seq::<SegView>::empty());
        }
        r
    }

    /// The number of segments.
    pub fn len(&self) -> (r: usize)
        ensures
            r == self@.len(),
    {
        self.segs.len()
    }

    /// The last segment, if any.
    pub fn last_segment(&self) -> (r: Option<&Segment>)
        ensures
            r is Some <==> self@.len() > 0,
            r matches Some(seg) ==> seg@ == self@.last(),
    {
        if self.segs.len() == 0 {
            None
        } else {
            let seg = &self.segs[self.segs.len() - 1];
            proof {
                assert(self@[self@.len() - 1] == self.segs@[self.segs@.len() - 1]@);
            }
            Some(seg)
        }
    }

    /// Parse the textual form of an address.
    ///
    /// Succeeds exactly on well-formed address text — see
    /// [`parse_spec`] — and then returns the address the text names;
    /// all other inputs are rejected as `InvalidAddress`.
    pub fn parse(s: &[u8]) -> (r: Result<MultiAddr, crate::error::Error>)
        ensures
            r is Ok <==> parse_spec(s@) is Some,
            r matches Ok(m) ==> Some(m@) == parse_spec(s@) && wf_segs(m@),
            r matches Err(e) ==> e == crate::error::Error::InvalidAddress,
    {
        if s.len() == 0 {
            return Err(crate::error::Error::InvalidAddress);
        }
        if s[0] != ASCII_SLASH {
            return Err(crate::error::Error::InvalidAddress);
        }
        let comps = split_from(s, 1, ASCII_SLASH);
        let ghost cviews = comps@.map_values(|v: Vec<u8>| v@);
        let mut segs: Vec<Segment> = Vec::new();
        let mut i: usize = 0;
        proof {
            assert(cviews.skip(0) =~= cviews);
            assert(segs@.map_values(|seg: Segment| seg@) =~= Seq::<SegView>::empty());
            if parse_components(cviews) is Some {
                assert(Seq::<SegView>::empty() + parse_components(cviews)->0 =~= parse_components(
                    cviews,
                )->0);
            }
        }
        while comps.len() - i >= 2
            invariant
                0 <= i <= comps@.len(),
                i % 2 == 0,
                s@.len() > 0,
                s@[0] == ASCII_SLASH,
                cviews == split_sep(s@.skip(1), ASCII_SLASH),
                cviews == comps@.map_values(|v: Vec<u8>| v@),
                wf_segs(segs@.map_values(|seg: Segment| seg@)),
                parse_components(cviews) == (match parse_components(cviews.skip(i as int)) {
                    Some(rest) => Some(segs@.map_values(|seg: Segment| seg@) + rest),
                    None => None::<Seq<SegView>>,
                }),
            decreases comps@.len() - i,
        {
            let ghost old_segs = segs@;
            let ghost cs = cviews.skip(i as int);
            proof {
                assert(cs.len() >= 2);
                assert(cs[0] == cviews[i as int]);
                assert(cs[1] == cviews[i + 1]);
            }
            match parse_segment(&comps[i], &comps[i + 1]) {
                Some(seg) => {
                    segs.push(seg);
                    proof {
                        assert(seg_of(cs[0], cs[1]) == Some(seg@));
                        assert(cs.skip(2) =~= cviews.skip(i + 2));
                        assert(segs@.map_values(|s2: Segment| s2@) =~= old_segs.map_values(
                            |s2: Segment| s2@,
                        ).push(seg@));
                        if parse_components(cviews.skip(i + 2)) is Some {
                            let rest = parse_components(cviews.skip(i + 2))->0;
                            assert(parse_components(cs) == Some(seq![seg@] + rest));
                            assert(old_segs.map_values(|s2: Segment| s2@) + (seq![seg@] + rest)
                                =~= segs@.map_values(|s2: Segment| s2@) + rest);
                        } else {
                            assert(parse_components(cs) is None);
                        }
                        assert(wf_segs(segs@.map_values(|s2: Segment| s2@)));
                    }
                },
                None => {
                    proof {
                        assert(parse_components(cs) is None);
                    }
                    return Err(crate::error::Error::InvalidAddress);
                },
            }
            i += 2;
        }
        if i < comps.len() {
            proof {
                assert(cviews.skip(i as int).len() == 1);
                assert(parse_components(cviews.skip(i as int)) is None);
            }
            return Err(crate::error::Error::InvalidAddress);
        }
        proof {
            assert(cviews.skip(i as int) =~= Seq::<Seq<u8>>::empty());
            assert(parse_components(cviews.skip(i as int)) == Some(Seq::<SegView>::empty()));
            assert(segs@.map_values(|seg: Segment| seg@) + Seq::<SegView>::empty() =~= segs@
                .map_values(|seg: Segment| seg@));
        }
        Ok(MultiAddr { segs })
    }

    /// Test structural soundness, so that a caller outside verified
    /// code can establish what [`Self::to_text`] asks for.
    pub fn is_well_formed(&self) -> (r: bool)
        ensures
            r == wf_segs(self@),
    {
        let mut i: usize = 0;
        while i < self.segs.len()
            invariant
                0 <= i <= self.segs@.len(),
                self@ == self.segs@.map_values(|seg: Segment| seg@),
                forall|j: int| 0 <= j < i ==> seg_wf(#[trigger] self@[j]),
            decreases self.segs@.len() - i,
        {
            proof {
                assert(self@[i as int] == self.segs@[i as int]@);
            }
            let ok = match &self.segs[i] {
                Segment::Ip4(_, _, _, _) => true,
                Segment::Ip6(_, _, _, _, _, _, _, _) => true,
                Segment::Dns4(name) => {
                    let mut k: usize = 0;
                    let mut good = name.len() >= 1;
                    while k < name.len()
                        invariant
                            0 <= k <= name@.len(),
                            good == (name@.len() >= 1 && forall|j: int|
                                0 <= j < k ==> is_dns_char(#[trigger] name@[j])),
                        decreases name@.len() - k,
                    {
                        if !is_dns_byte(name[k]) {
                            good = false;
                        }
                        k += 1;
                    }
                    good
                },
                Segment::Tcp(_) => true,
                Segment::Onion3(key, _) => key.len() == 35,
            };
            if !ok {
                return false;
            }
            i += 1;
        }
        true
    }

    /// Render the address as text.
    pub fn to_text(&self) -> (r: Vec<u8>)
        requires
            wf_segs(self@),
        ensures
            r@ == render_spec(self@),
    {
        let mut out: Vec<u8> = Vec::new();
        let mut i: usize = 0;
        while i < self.segs.len()
            invariant
                0 <= i <= self.segs@.len(),
                wf_segs(self@),
                self@ == self.segs@.map_values(|seg: Segment| seg@),
                out@ == render_spec(self@.take(i as int)),
            decreases self.segs@.len() - i,
        {
            proof {
                assert(self@[i as int] == self.segs@[i as int]@);
                assert(seg_wf(self@[i as int]));
            }
            render_segment(&mut out, &self.segs[i]);
            proof {
                assert(self@.take(i + 1).drop_last() =~= self@.take(i as int));
                assert(self@.take(i + 1).last() == self@[i as int]);
            }
            i += 1;
        }
        proof {
            assert(self@.take(i as int) =~= self@);
        }
        out
    }
}

// ---------------------------------------------------------------------------
// Laws: the text of a well-formed address parses back to that address.
// ---------------------------------------------------------------------------

/// No byte of `s` is `sep`.
pub open spec fn has_no(s: Seq<u8>, sep: u8) -> bool {
    forall|i: int| 0 <= i < s.len() ==> s[i] != sep
}

/// A string without the separator splits into itself alone.
proof fn lemma_split_no_sep(s: Seq<u8>, sep: u8)
    requires
        has_no(s, sep),
    ensures
        split_sep(s, sep) == seq![s],
    decreases s.len(),
{
    if s.len() == 0 {
        assert(s =~= Seq::<u8>::empty());
        assert(split_sep(s, sep) =~= seq![s]);
    } else {
        assert(has_no(s.drop_last(), sep)) by {
            assert(forall|i: int| 0 <= i < s.drop_last().len() ==> s.drop_last()[i] == s[i]);
        }
        lemma_split_no_sep(s.drop_last(), sep);
        assert(s.last() != sep);
        assert(s.drop_last().push(s.last()) =~= s);
        assert(split_sep(s, sep) =~= seq![s]);
    }
}

/// Splitting distributes over a separator between two strings.
proof fn lemma_split_concat(x: Seq<u8>, y: Seq<u8>, sep: u8)
    ensures
        split_sep(x + seq![sep] + y, sep) == split_sep(x, sep) + split_sep(y, sep),
    decreases y.len(),
{
    let w = x + seq![sep] + y;
    lemma_split_sep_len(x, sep);
    if y.len() == 0 {
        assert(w.last() == sep);
        assert(w.drop_last() =~= x);
        assert(split_sep(y, sep) =~= seq![Seq::<u8>::empty()]);
        assert(split_sep(w, sep) =~= split_sep(x, sep) + split_sep(y, sep));
    } else {
        lemma_split_concat(x, y.drop_last(), sep);
        lemma_split_sep_len(y.drop_last(), sep);
        assert(w.drop_last() =~= x + seq![sep] + y.drop_last());
        assert(w.last() == y.last());
        let s1 = split_sep(x, sep);
        let s2 = split_sep(y.drop_last(), sep);
        if y.last() == sep {
            assert(split_sep(w, sep) =~= (s1 + s2) + seq![Seq::<u8>::empty()]);
            assert(split_sep(y, sep) =~= s2 + seq![Seq::<u8>::empty()]);
            assert(split_sep(w, sep) =~= s1 + split_sep(y, sep));
        } else {
            assert((s1 + s2).last() == s2.last());
            assert(split_sep(w, sep) =~= (s1 + s2).update(
                s1.len() + s2.len() - 1,
                s2.last().push(y.last()),
            ));
            assert(split_sep(y, sep) =~= s2.update(s2.len() - 1, s2.last().push(y.last())));
            assert((s1 + s2).update(s1.len() + s2.len() - 1, s2.last().push(y.last())) =~= s1
                + s2.update(s2.len() - 1, s2.last().push(y.last())));
            assert(split_sep(w, sep) =~= s1 + split_sep(y, sep));
        }
    }
}

/// Pieces joined by the separator.
pub open spec fn join_sep(ps: Seq<Seq<u8>>, sep: u8) -> Seq<u8>
    decreases ps.len(),
{
    if ps.len() == 0 {
        Seq::<u8>::empty()
    } else if ps.len() == 1 {
        ps[0]
    } else {
        join_sep(ps.drop_last(), sep) + seq![sep] + ps.last()
    }
}

/// Joining pieces free of the separator and splitting again gives the
/// pieces back.
proof fn lemma_split_join(ps: Seq<Seq<u8>>, sep: u8)
    requires
        ps.len() >= 1,
        forall|i: int| 0 <= i < ps.len() ==> has_no(#[trigger] ps[i], sep),
    ensures
        split_sep(join_sep(ps, sep), sep) == ps,
    decreases ps.len(),
{
    if ps.len() == 1 {
        lemma_split_no_sep(ps[0], sep);
        assert(seq![ps[0]] =~= ps);
    } else {
        assert(forall|i: int|
            0 <= i < ps.drop_last().len() ==> has_no(#[trigger] ps.drop_last()[i], sep));
        lemma_split_join(ps.drop_last(), sep);
        lemma_split_concat(join_sep(ps.drop_last(), sep), ps.last(), sep);
        lemma_split_no_sep(ps.last(), sep);
        assert(split_sep(join_sep(ps, sep), sep) =~= ps.drop_last() + seq![ps.last()]);
        assert(ps.drop_last() + seq![ps.last()] =~= ps);
    }
}

/// Decimal numerals are free of both separators.
proof fn lemma_dec_seq_has_no_seps(n: int)
    requires
        0 <= n,
    ensures
        has_no(dec_seq(n), ASCII_SLASH),
        has_no(dec_seq(n), ASCII_DOT),
        has_no(dec_seq(n), ASCII_COLON),
{
    crate::bytes::lemma_dec_round_trip(n);
    assert forall|i: int| 0 <= i < dec_seq(n).len() implies dec_seq(n)[i] != ASCII_SLASH
        && dec_seq(n)[i] != ASCII_DOT && dec_seq(n)[i] != ASCII_COLON by {
        assert(is_digit(dec_seq(n)[i]));
    }
}

/// Hexadecimal numerals are free of both separators.
proof fn lemma_hexn_seq_has_no_seps(n: int)
    requires
        0 <= n,
    ensures
        has_no(hexn_seq(n), ASCII_SLASH),
        has_no(hexn_seq(n), ASCII_COLON),
{
    crate::bytes::lemma_hexn_round_trip(n);
    assert forall|i: int| 0 <= i < hexn_seq(n).len() implies hexn_seq(n)[i] != ASCII_SLASH
        && hexn_seq(n)[i] != ASCII_COLON by {
        assert(crate::bytes::is_hexn_char(hexn_seq(n)[i]));
    }
}

/// The label and value of a well-formed `ip4` segment read back.
proof fn lemma_seg_read_back_ip4(sv: SegView)
    requires
        sv is Ip4,
    ensures
        seg_of(seg_label(sv), seg_value(sv)) == Some(sv),
        has_no(seg_label(sv), ASCII_SLASH),
        has_no(seg_value(sv), ASCII_SLASH),
{
    match sv {
        SegView::Ip4(a, b, c, d) => {
            crate::bytes::lemma_dec_round_trip(a as int);
            crate::bytes::lemma_dec_round_trip(b as int);
            crate::bytes::lemma_dec_round_trip(c as int);
            crate::bytes::lemma_dec_round_trip(d as int);
            lemma_dec_seq_has_no_seps(a as int);
            lemma_dec_seq_has_no_seps(b as int);
            lemma_dec_seq_has_no_seps(c as int);
            lemma_dec_seq_has_no_seps(d as int);
            let da = dec_seq(a as int);
            let db = dec_seq(b as int);
            let dc = dec_seq(c as int);
            let dd = dec_seq(d as int);
            let p1 = seq![da];
            let p2 = seq![da, db];
            let p3 = seq![da, db, dc];
            let ps = seq![da, db, dc, dd];
            assert(p2.drop_last() =~= p1);
            assert(p3.drop_last() =~= p2);
            assert(ps.drop_last() =~= p3);
            assert(join_sep(p1, ASCII_DOT) == da);
            assert(join_sep(p2, ASCII_DOT) == join_sep(p1, ASCII_DOT) + seq![ASCII_DOT] + db);
            assert(join_sep(p3, ASCII_DOT) == join_sep(p2, ASCII_DOT) + seq![ASCII_DOT] + dc);
            assert(join_sep(ps, ASCII_DOT) == join_sep(p3, ASCII_DOT) + seq![ASCII_DOT] + dd);
            assert(join_sep(ps, ASCII_DOT) =~= seg_value(sv));
            lemma_split_join(ps, ASCII_DOT);
            assert(ip4_of(seg_value(sv)) == Some(sv));
        },
        _ => {},
    }
}

/// The label and value of a well-formed `ip6` segment read back.
#[verifier::rlimit(100)]
proof fn lemma_seg_read_back_ip6(sv: SegView)
    requires
        sv is Ip6,
        seg_wf(sv),
    ensures
        seg_of(seg_label(sv), seg_value(sv)) == Some(sv),
        has_no(seg_label(sv), ASCII_SLASH),
        has_no(seg_value(sv), ASCII_SLASH),
{
    match sv {
        SegView::Ip6(gs) => {
            assert forall|k: int| 0 <= k < 8 implies has_no(#[trigger] hexn_seq(gs[k] as int), ASCII_SLASH)
                && has_no(hexn_seq(gs[k] as int), ASCII_COLON) && crate::bytes::is_canon_hexn(
                hexn_seq(gs[k] as int),
            ) && crate::bytes::hexn_val(hexn_seq(gs[k] as int)) == gs[k] by {
                lemma_hexn_seq_has_no_seps(gs[k] as int);
                crate::bytes::lemma_hexn_round_trip(gs[k] as int);
            }
            let h0 = hexn_seq(gs[0] as int);
            let h1 = hexn_seq(gs[1] as int);
            let h2 = hexn_seq(gs[2] as int);
            let h3 = hexn_seq(gs[3] as int);
            let h4 = hexn_seq(gs[4] as int);
            let h5 = hexn_seq(gs[5] as int);
            let h6 = hexn_seq(gs[6] as int);
            let h7 = hexn_seq(gs[7] as int);
            let p1 = seq![h0];
            let p2 = seq![h0, h1];
            let p3 = seq![h0, h1, h2];
            let p4 = seq![h0, h1, h2, h3];
            let p5 = seq![h0, h1, h2, h3, h4];
            let p6 = seq![h0, h1, h2, h3, h4, h5];
            let p7 = seq![h0, h1, h2, h3, h4, h5, h6];
            let ps = seq![h0, h1, h2, h3, h4, h5, h6, h7];
            assert(p2.drop_last() =~= p1);
            assert(p3.drop_last() =~= p2);
            assert(p4.drop_last() =~= p3);
            assert(p5.drop_last() =~= p4);
            assert(p6.drop_last() =~= p5);
            assert(p7.drop_last() =~= p6);
            assert(ps.drop_last() =~= p7);
            assert(join_sep(p1, ASCII_COLON) == h0);
            assert(join_sep(p2, ASCII_COLON) == join_sep(p1, ASCII_COLON) + seq![ASCII_COLON] + h1);
            assert(join_sep(p3, ASCII_COLON) == join_sep(p2, ASCII_COLON) + seq![ASCII_COLON] + h2);
            assert(join_sep(p4, ASCII_COLON) == join_sep(p3, ASCII_COLON) + seq![ASCII_COLON] + h3);
            assert(join_sep(p5, ASCII_COLON) == join_sep(p4, ASCII_COLON) + seq![ASCII_COLON] + h4);
            assert(join_sep(p6, ASCII_COLON) == join_sep(p5, ASCII_COLON) + seq![ASCII_COLON] + h5);
            assert(join_sep(p7, ASCII_COLON) == join_sep(p6, ASCII_COLON) + seq![ASCII_COLON] + h6);
            assert(join_sep(ps, ASCII_COLON) == join_sep(p7, ASCII_COLON) + seq![ASCII_COLON] + h7);
            assert(join_sep(ps, ASCII_COLON) =~= seg_value(sv));
            lemma_split_join(ps, ASCII_COLON);
            let back = ip6_of(seg_value(sv));
            assert(back matches Some(SegView::Ip6(hs)) && hs =~= gs);
        },
        _ => {},
    }
}

/// The label and value of a well-formed `dns4` segment read back.
proof fn lemma_seg_read_back_dns4(sv: SegView)
    requires
        sv is Dns4,
        seg_wf(sv),
    ensures
        seg_of(seg_label(sv), seg_value(sv)) == Some(sv),
        has_no(seg_label(sv), ASCII_SLASH),
        has_no(seg_value(sv), ASCII_SLASH),
{
    match sv {
        SegView::Dns4(name) => {
            assert forall|i: int| 0 <= i < name.len() implies name[i] != ASCII_SLASH by {
                assert(is_dns_char(name[i]));
            }
            assert(dns4_of(seg_value(sv)) == Some(sv));
        },
        _ => {},
    }
}

/// The label and value of a `tcp` segment read back.
proof fn lemma_seg_read_back_tcp(sv: SegView)
    requires
        sv is Tcp,
    ensures
        seg_of(seg_label(sv), seg_value(sv)) == Some(sv),
        has_no(seg_label(sv), ASCII_SLASH),
        has_no(seg_value(sv), ASCII_SLASH),
{
    match sv {
        SegView::Tcp(port) => {
            crate::bytes::lemma_dec_round_trip(port as int);
            lemma_dec_seq_has_no_seps(port as int);
            assert(tcp_of(seg_value(sv)) == Some(sv));
        },
        _ => {},
    }
}

/// The label and value of a well-formed `onion3` segment read back.
#[verifier::rlimit(100)]
proof fn lemma_seg_read_back_onion3(sv: SegView)
    requires
        sv is Onion3,
        seg_wf(sv),
    ensures
        seg_of(seg_label(sv), seg_value(sv)) == Some(sv),
        has_no(seg_label(sv), ASCII_SLASH),
        has_no(seg_value(sv), ASCII_SLASH),
{
    match sv {
        SegView::Onion3(key, port) => {
            crate::bytes::lemma_dec_round_trip(port as int);
            lemma_dec_seq_has_no_seps(port as int);
            base32::lemma_b32_decode_encode(key);
            base32::lemma_b32_encode_len(key);
            assert forall|i: int| 0 <= i < b32_encode(key).len() implies b32_encode(key)[i]
                != ASCII_SLASH && b32_encode(key)[i] != ASCII_COLON by {
                assert(is_b32(b32_encode(key)[i]));
            }
            let p1 = seq![b32_encode(key)];
            let ps = seq![b32_encode(key), dec_seq(port as int)];
            assert(ps.drop_last() =~= p1);
            assert(join_sep(p1, ASCII_COLON) == b32_encode(key));
            assert(join_sep(ps, ASCII_COLON) == join_sep(p1, ASCII_COLON) + seq![ASCII_COLON]
                + dec_seq(port as int));
            assert(join_sep(ps, ASCII_COLON) =~= seg_value(sv));
            lemma_split_join(ps, ASCII_COLON);
            assert(onion3_of(seg_value(sv)) == Some(sv));
        },
        _ => {},
    }
}

/// The label and value of a well-formed segment read back as that
/// segment, and neither contains a slash.
proof fn lemma_seg_read_back(sv: SegView)
    requires
        seg_wf(sv),
    ensures
        seg_of(seg_label(sv), seg_value(sv)) == Some(sv),
        has_no(seg_label(sv), ASCII_SLASH),
        has_no(seg_value(sv), ASCII_SLASH),
{
    match sv {
        SegView::Ip4(_, _, _, _) => lemma_seg_read_back_ip4(sv),
        SegView::Ip6(_) => lemma_seg_read_back_ip6(sv),
        SegView::Dns4(_) => lemma_seg_read_back_dns4(sv),
        SegView::Tcp(_) => lemma_seg_read_back_tcp(sv),
        SegView::Onion3(_, _) => lemma_seg_read_back_onion3(sv),
    }
}

/// The components of an address: each segment's label, then its value.
pub open spec fn comps_of(svs: Seq<SegView>) -> Seq<Seq<u8>>
    decreases svs.len(),
{
    if svs.len() == 0 {
        Seq::<Seq<u8>>::empty()
    } else {
        seq![seg_label(svs[0]), seg_value(svs[0])] + comps_of(svs.skip(1))
    }
}

/// The components of a well-formed address parse back to its segments.
proof fn lemma_parse_comps(svs: Seq<SegView>)
    requires
        wf_segs(svs),
    ensures
        parse_components(comps_of(svs)) == Some(svs),
    decreases svs.len(),
{
    if svs.len() == 0 {
        assert(parse_components(comps_of(svs)) =~= Some(svs));
    } else {
        let cs = comps_of(svs);
        assert(cs[0] == seg_label(svs[0]));
        assert(cs[1] == seg_value(svs[0]));
        assert(cs.len() == 2 + comps_of(svs.skip(1)).len());
        lemma_comps_len(svs.skip(1));
        lemma_seg_read_back(svs[0]);
        assert(cs.skip(2) =~= comps_of(svs.skip(1)));
        assert(forall|i: int| 0 <= i < svs.skip(1).len() ==> seg_wf(#[trigger] svs.skip(1)[i]));
        lemma_parse_comps(svs.skip(1));
        assert(seq![svs[0]] + svs.skip(1) =~= svs);
    }
}

/// An address has two components per segment.
proof fn lemma_comps_len(svs: Seq<SegView>)
    ensures
        comps_of(svs).len() == 2 * svs.len(),
    decreases svs.len(),
{
    if svs.len() > 0 {
        lemma_comps_len(svs.skip(1));
    }
}

/// The text of an address decomposes from the front.
proof fn lemma_render_front(svs: Seq<SegView>)
    requires
        svs.len() >= 1,
    ensures
        render_spec(svs) == seg_text(svs[0]) + render_spec(svs.skip(1)),
    decreases svs.len(),
{
    if svs.len() == 1 {
        assert(svs.drop_last() =~= Seq::<SegView>::empty());
        assert(svs.skip(1) =~= Seq::<SegView>::empty());
        assert(render_spec(svs) =~= seg_text(svs[0]) + render_spec(svs.skip(1)));
    } else {
        lemma_render_front(svs.drop_last());
        assert(svs.drop_last()[0] == svs[0]);
        assert(svs.skip(1).drop_last() =~= svs.drop_last().skip(1));
        assert(svs.skip(1).last() == svs.last());
        assert(render_spec(svs.skip(1)) == render_spec(svs.skip(1).drop_last()) + seg_text(
            svs.last(),
        ));
        assert(render_spec(svs) =~= seg_text(svs[0]) + render_spec(svs.skip(1)));
    }
}

/// The text of a well-formed address starts with a slash and splits
/// into exactly its components.
#[verifier::rlimit(100)]
proof fn lemma_render_split(svs: Seq<SegView>)
    requires
        wf_segs(svs),
        svs.len() >= 1,
    ensures
        render_spec(svs).len() >= 1,
        render_spec(svs)[0] == ASCII_SLASH,
        split_sep(render_spec(svs).skip(1), ASCII_SLASH) == comps_of(svs),
    decreases svs.len(),
{
    lemma_render_front(svs);
    lemma_seg_read_back(svs[0]);
    let l = seg_label(svs[0]);
    let v = seg_value(svs[0]);
    assert(seg_text(svs[0])[0] == ASCII_SLASH);
    if svs.len() == 1 {
        assert(render_spec(svs.skip(1)) =~= Seq::<u8>::empty());
        assert(render_spec(svs) =~= seg_text(svs[0]));
        assert(render_spec(svs).skip(1) =~= l + seq![ASCII_SLASH] + v);
        lemma_split_concat(l, v, ASCII_SLASH);
        lemma_split_no_sep(l, ASCII_SLASH);
        lemma_split_no_sep(v, ASCII_SLASH);
        assert(split_sep(render_spec(svs).skip(1), ASCII_SLASH) =~= comps_of(svs));
    } else {
        assert(forall|i: int| 0 <= i < svs.skip(1).len() ==> seg_wf(#[trigger] svs.skip(1)[i]));
        lemma_render_split(svs.skip(1));
        let rest = render_spec(svs.skip(1));
        assert(rest =~= seq![ASCII_SLASH] + rest.skip(1));
        assert(render_spec(svs).skip(1) =~= (l + seq![ASCII_SLASH] + v) + seq![ASCII_SLASH]
            + rest.skip(1));
        lemma_split_concat(l + seq![ASCII_SLASH] + v, rest.skip(1), ASCII_SLASH);
        lemma_split_concat(l, v, ASCII_SLASH);
        lemma_split_no_sep(l, ASCII_SLASH);
        lemma_split_no_sep(v, ASCII_SLASH);
        assert(split_sep(render_spec(svs).skip(1), ASCII_SLASH) =~= (seq![l] + seq![v])
            + comps_of(svs.skip(1)));
        assert((seq![l] + seq![v]) + comps_of(svs.skip(1)) =~= comps_of(svs));
    }
}

/// Round trip: rendering a non-empty well-formed address and parsing
/// the text again yields exactly the original segments.
pub proof fn lemma_parse_render_round_trip(svs: Seq<SegView>)
    requires
        wf_segs(svs),
        svs.len() >= 1,
    ensures
        parse_spec(render_spec(svs)) == Some(svs),
{
    lemma_render_split(svs);
    lemma_parse_comps(svs);
}

/// Splitting a string and joining the pieces again gives the string
/// back.
proof fn lemma_join_split(s: Seq<u8>, sep: u8)
    ensures
        join_sep(split_sep(s, sep), sep) == s,
    decreases s.len(),
{
    if s.len() == 0 {
        assert(join_sep(split_sep(s, sep), sep) =~= s);
    } else {
        lemma_join_split(s.drop_last(), sep);
        lemma_split_sep_len(s.drop_last(), sep);
        let rest = split_sep(s.drop_last(), sep);
        assert(s.drop_last().push(s.last()) =~= s);
        if s.last() == sep {
            let w = rest + seq![Seq::<u8>::empty()];
            assert(w.drop_last() =~= rest);
            assert(join_sep(w, sep) == join_sep(rest, sep) + seq![sep] + w.last());
            assert(w.last() =~= Seq::<u8>::empty());
            assert(join_sep(rest, sep) + seq![sep] + Seq::<u8>::empty() =~= join_sep(
                rest,
                sep,
            ).push(sep));
            assert(join_sep(w, sep) =~= s);
        } else {
            let w = rest.update(rest.len() - 1, rest.last().push(s.last()));
            if rest.len() == 1 {
                assert(join_sep(w, sep) == w[0]);
                assert(w[0] == rest.last().push(s.last()));
                assert(join_sep(rest, sep) == rest[0]);
                assert(rest.last() == rest[0]);
                assert(join_sep(w, sep) =~= s);
            } else {
                assert(w.drop_last() =~= rest.drop_last());
                assert(w.last() == rest.last().push(s.last()));
                assert(join_sep(w, sep) == join_sep(rest.drop_last(), sep) + seq![sep]
                    + rest.last().push(s.last()));
                assert(join_sep(rest, sep) == join_sep(rest.drop_last(), sep) + seq![sep]
                    + rest.last());
                assert(join_sep(rest.drop_last(), sep) + seq![sep] + rest.last().push(s.last())
                    =~= (join_sep(rest.drop_last(), sep) + seq![sep] + rest.last()).push(
                    s.last(),
                ));
                assert(join_sep(w, sep) =~= s);
            }
        }
    }
}

/// A value that reads as an `ip4` segment is that segment's own value.
#[verifier::rlimit(100)]
proof fn lemma_ip4_of_inverse(value: Seq<u8>, sv: SegView)
    requires
        ip4_of(value) == Some(sv),
    ensures
        sv is Ip4,
        value == seg_value(sv),
        seg_wf(sv),
{
    let ps = split_sep(value, ASCII_DOT);
    lemma_join_split(value, ASCII_DOT);
    match sv {
        SegView::Ip4(a, b, c, d) => {
            crate::bytes::lemma_dec_canon(ps[0]);
            crate::bytes::lemma_dec_canon(ps[1]);
            crate::bytes::lemma_dec_canon(ps[2]);
            crate::bytes::lemma_dec_canon(ps[3]);
            crate::bytes::lemma_dec_val_nonneg(ps[0]);
            crate::bytes::lemma_dec_val_nonneg(ps[1]);
            crate::bytes::lemma_dec_val_nonneg(ps[2]);
            crate::bytes::lemma_dec_val_nonneg(ps[3]);
            assert(a == dec_val(ps[0]) && b == dec_val(ps[1]) && c == dec_val(ps[2]) && d
                == dec_val(ps[3]));
            assert(dec_seq(a as int) == ps[0]);
            assert(dec_seq(b as int) == ps[1]);
            assert(dec_seq(c as int) == ps[2]);
            assert(dec_seq(d as int) == ps[3]);
            let p1 = seq![ps[0]];
            let p2 = seq![ps[0], ps[1]];
            let p3 = seq![ps[0], ps[1], ps[2]];
            let p4 = seq![ps[0], ps[1], ps[2], ps[3]];
            assert(p2.drop_last() =~= p1);
            assert(p3.drop_last() =~= p2);
            assert(p4.drop_last() =~= p3);
            assert(ps =~= p4);
            assert(join_sep(p1, ASCII_DOT) == ps[0]);
            assert(join_sep(p2, ASCII_DOT) == join_sep(p1, ASCII_DOT) + seq![ASCII_DOT] + ps[1]);
            assert(join_sep(p3, ASCII_DOT) == join_sep(p2, ASCII_DOT) + seq![ASCII_DOT] + ps[2]);
            assert(join_sep(p4, ASCII_DOT) == join_sep(p3, ASCII_DOT) + seq![ASCII_DOT] + ps[3]);
            assert(seg_value(sv) =~= join_sep(p4, ASCII_DOT));
        },
        _ => {},
    }
}

/// A value that reads as an `ip6` segment is that segment's own value.
#[verifier::rlimit(100)]
proof fn lemma_ip6_of_inverse(value: Seq<u8>, sv: SegView)
    requires
        ip6_of(value) == Some(sv),
    ensures
        sv is Ip6,
        value == seg_value(sv),
        seg_wf(sv),
{
    let ps = split_sep(value, ASCII_COLON);
    lemma_join_split(value, ASCII_COLON);
    match sv {
        SegView::Ip6(gs) => {
            assert forall|k: int| 0 <= k < 8 implies hexn_seq(gs[k] as int) == #[trigger] ps[k] by {
                crate::bytes::lemma_hexn_canon(ps[k]);
                crate::bytes::lemma_hexn_val_nonneg(ps[k]);
                assert(gs[k] == hexn_val(ps[k]));
            }
            let p1 = seq![ps[0]];
            let p2 = seq![ps[0], ps[1]];
            let p3 = seq![ps[0], ps[1], ps[2]];
            let p4 = seq![ps[0], ps[1], ps[2], ps[3]];
            let p5 = seq![ps[0], ps[1], ps[2], ps[3], ps[4]];
            let p6 = seq![ps[0], ps[1], ps[2], ps[3], ps[4], ps[5]];
            let p7 = seq![ps[0], ps[1], ps[2], ps[3], ps[4], ps[5], ps[6]];
            let p8 = seq![ps[0], ps[1], ps[2], ps[3], ps[4], ps[5], ps[6], ps[7]];
            assert(p2.drop_last() =~= p1);
            assert(p3.drop_last() =~= p2);
            assert(p4.drop_last() =~= p3);
            assert(p5.drop_last() =~= p4);
            assert(p6.drop_last() =~= p5);
            assert(p7.drop_last() =~= p6);
            assert(p8.drop_last() =~= p7);
            assert(ps =~= p8);
            assert(join_sep(p1, ASCII_COLON) == ps[0]);
            assert(join_sep(p2, ASCII_COLON) == join_sep(p1, ASCII_COLON) + seq![ASCII_COLON]
                + ps[1]);
            assert(join_sep(p3, ASCII_COLON) == join_sep(p2, ASCII_COLON) + seq![ASCII_COLON]
                + ps[2]);
            assert(join_sep(p4, ASCII_COLON) == join_sep(p3, ASCII_COLON) + seq![ASCII_COLON]
                + ps[3]);
            assert(join_sep(p5, ASCII_COLON) == join_sep(p4, ASCII_COLON) + seq![ASCII_COLON]
                + ps[4]);
            assert(join_sep(p6, ASCII_COLON) == join_sep(p5, ASCII_COLON) + seq![ASCII_COLON]
                + ps[5]);
            assert(join_sep(p7, ASCII_COLON) == join_sep(p6, ASCII_COLON) + seq![ASCII_COLON]
                + ps[6]);
            assert(join_sep(p8, ASCII_COLON) == join_sep(p7, ASCII_COLON) + seq![ASCII_COLON]
                + ps[7]);
            assert(seg_value(sv) =~= join_sep(p8, ASCII_COLON));
        },
        _ => {},
    }
}

/// A value that reads as an `onion3` segment is that segment's own
/// value.
#[verifier::rlimit(100)]
proof fn lemma_onion3_of_inverse(value: Seq<u8>, sv: SegView)
    requires
        onion3_of(value) == Some(sv),
    ensures
        sv is Onion3,
        value == seg_value(sv),
        seg_wf(sv),
{
    let ps = split_sep(value, ASCII_COLON);
    lemma_join_split(value, ASCII_COLON);
    match sv {
        SegView::Onion3(key, port) => {
            base32::lemma_b32_encode_decode(ps[0]);
            assert(b32_encode(key) == ps[0]);
            crate::bytes::lemma_dec_canon(ps[1]);
            crate::bytes::lemma_dec_val_nonneg(ps[1]);
            assert(port == dec_val(ps[1]));
            assert(dec_seq(port as int) == ps[1]);
            let p1 = seq![ps[0]];
            let p2 = seq![ps[0], ps[1]];
            assert(p2.drop_last() =~= p1);
            assert(ps =~= p2);
            assert(join_sep(p1, ASCII_COLON) == ps[0]);
            assert(join_sep(p2, ASCII_COLON) == join_sep(p1, ASCII_COLON) + seq![ASCII_COLON]
                + ps[1]);
            assert(seg_value(sv) =~= join_sep(p2, ASCII_COLON));
        },
        _ => {},
    }
}

/// A label/value pair that reads as a segment carries that segment's
/// own label and value, and the segment is well formed.
proof fn lemma_seg_of_inverse(label: Seq<u8>, value: Seq<u8>, sv: SegView)
    requires
        seg_of(label, value) == Some(sv),
    ensures
        label == seg_label(sv),
        value == seg_value(sv),
        seg_wf(sv),
{
    if label == label_ip4() {
        lemma_ip4_of_inverse(value, sv);
    } else if label == label_ip6() {
        lemma_ip6_of_inverse(value, sv);
    } else if label == label_dns4() {
        assert(sv is Dns4 && value == seg_value(sv) && seg_wf(sv));
    } else if label == label_tcp() {
        match sv {
            SegView::Tcp(port) => {
                crate::bytes::lemma_dec_canon(value);
                crate::bytes::lemma_dec_val_nonneg(value);
                assert(port == dec_val(value));
                assert(dec_seq(port as int) == value);
            },
            _ => {},
        }
    } else {
        lemma_onion3_of_inverse(value, sv);
    }
}

/// Components that parse are exactly the components of what they parse
/// to, which is well formed.
proof fn lemma_parse_comps_inverse(cs: Seq<Seq<u8>>, svs: Seq<SegView>)
    requires
        parse_components(cs) == Some(svs),
    ensures
        cs == comps_of(svs),
        wf_segs(svs),
        cs.len() == 2 * svs.len(),
    decreases cs.len(),
{
    if cs.len() == 0 {
        assert(cs =~= comps_of(svs));
    } else {
        assert(cs.len() >= 2);
        let seg = seg_of(cs[0], cs[1])->0;
        let rest = parse_components(cs.skip(2))->0;
        assert(svs == seq![seg] + rest);
        lemma_seg_of_inverse(cs[0], cs[1], seg);
        lemma_parse_comps_inverse(cs.skip(2), rest);
        assert(svs[0] == seg);
        assert(svs.skip(1) =~= rest);
        assert(cs =~= seq![seg_label(svs[0]), seg_value(svs[0])] + comps_of(svs.skip(1)));
        assert(forall|i: int| 0 <= i < svs.len() ==> seg_wf(#[trigger] svs[i])) by {
            assert(forall|i: int| 0 <= i < rest.len() ==> seg_wf(#[trigger] rest[i]));
            assert(forall|i: int| 1 <= i < svs.len() ==> svs[i] == rest[i - 1]);
        }
    }
}

/// Canonical text: a text that parses as an address is exactly the
/// rendering of that address — the parser accepts no other spelling.
pub proof fn lemma_render_parse_canon(s: Seq<u8>, svs: Seq<SegView>)
    requires
        parse_spec(s) == Some(svs),
    ensures
        render_spec(svs) == s,
        wf_segs(svs),
        svs.len() >= 1,
{
    let cs = split_sep(s.skip(1), ASCII_SLASH);
    lemma_split_sep_len(s.skip(1), ASCII_SLASH);
    lemma_parse_comps_inverse(cs, svs);
    lemma_render_split(svs);
    lemma_join_split(s.skip(1), ASCII_SLASH);
    lemma_join_split(render_spec(svs).skip(1), ASCII_SLASH);
    assert(s.len() > 0 && s[0] == ASCII_SLASH);
    assert(render_spec(svs).skip(1) == join_sep(cs, ASCII_SLASH));
    assert(s.skip(1) == join_sep(cs, ASCII_SLASH));
    assert(render_spec(svs) =~= seq![ASCII_SLASH] + render_spec(svs).skip(1));
    assert(s =~= seq![ASCII_SLASH] + s.skip(1));
    assert(render_spec(svs) =~= s);
}

/// Append the text of one segment to `out`.
#[verifier::rlimit(100)]
fn render_segment(out: &mut Vec<u8>, seg: &Segment)
    requires
        seg_wf(seg@),
    ensures
        final(out)@ == old(out)@ + seg_text(seg@),
{
    match seg {
        Segment::Ip4(a, b, c, d) => {
            out.push(ASCII_SLASH);
            let lab = label_ip4_vec();
            push_all(out, lab.as_slice());
            out.push(ASCII_SLASH);
            let t = render_dec_u16(*a as u16);
            push_all(out, t.as_slice());
            out.push(ASCII_DOT);
            let t = render_dec_u16(*b as u16);
            push_all(out, t.as_slice());
            out.push(ASCII_DOT);
            let t = render_dec_u16(*c as u16);
            push_all(out, t.as_slice());
            out.push(ASCII_DOT);
            let t = render_dec_u16(*d as u16);
            push_all(out, t.as_slice());
            proof {
                assert(out@ =~= old(out)@ + seg_text(seg@));
            }
        },
        Segment::Ip6(g0, g1, g2, g3, g4, g5, g6, g7) => {
            out.push(ASCII_SLASH);
            let lab = label_ip6_vec();
            push_all(out, lab.as_slice());
            out.push(ASCII_SLASH);
            let t = render_hexn_u16(*g0);
            push_all(out, t.as_slice());
            out.push(ASCII_COLON);
            let t = render_hexn_u16(*g1);
            push_all(out, t.as_slice());
            out.push(ASCII_COLON);
            let t = render_hexn_u16(*g2);
            push_all(out, t.as_slice());
            out.push(ASCII_COLON);
            let t = render_hexn_u16(*g3);
            push_all(out, t.as_slice());
            out.push(ASCII_COLON);
            let t = render_hexn_u16(*g4);
            push_all(out, t.as_slice());
            out.push(ASCII_COLON);
            let t = render_hexn_u16(*g5);
            push_all(out, t.as_slice());
            out.push(ASCII_COLON);
            let t = render_hexn_u16(*g6);
            push_all(out, t.as_slice());
            out.push(ASCII_COLON);
            let t = render_hexn_u16(*g7);
            push_all(out, t.as_slice());
            proof {
                assert(out@ =~= old(out)@ + seg_text(seg@));
            }
        },
        Segment::Dns4(name) => {
            out.push(ASCII_SLASH);
            let lab = label_dns4_vec();
            push_all(out, lab.as_slice());
            out.push(ASCII_SLASH);
            push_all(out, name.as_slice());
            proof {
                assert(out@ =~= old(out)@ + seg_text(seg@));
            }
        },
        Segment::Tcp(port) => {
            out.push(ASCII_SLASH);
            let lab = label_tcp_vec();
            push_all(out, lab.as_slice());
            out.push(ASCII_SLASH);
            let t = render_dec_u16(*port);
            push_all(out, t.as_slice());
            proof {
                assert(out@ =~= old(out)@ + seg_text(seg@));
            }
        },
        Segment::Onion3(key, port) => {
            out.push(ASCII_SLASH);
            let lab = label_onion3_vec();
            push_all(out, lab.as_slice());
            out.push(ASCII_SLASH);
            let t = base32::encode(key.as_slice());
            push_all(out, t.as_slice());
            out.push(ASCII_COLON);
            let t = render_dec_u16(*port);
            push_all(out, t.as_slice());
            proof {
                assert(out@ =~= old(out)@ + seg_text(seg@));
            }
        },
    }
}

} // verus!
