use vstd::prelude::*;

use crate::bytes::{dec_seq, hex_seq, is_digit, render_dec_u16, ASCII_ZERO};
use crate::error::Error;
use crate::multiaddr::{push_all, split_sep};
use crate::onion::OnionAddr;

verus! {

// ---------------------------------------------------------------------------
// The Tor control-port protocol, as the hidden-service registration
// uses it: the commands PROTOCOLINFO, AUTHENTICATE, TAKEOWNERSHIP and
// ADD_ONION, the reply-line format, and the session state machine that
// strings them together.  The surrounding program owns the control
// socket: it sends the lines this module builds and feeds back the
// replies, line by line.
// ---------------------------------------------------------------------------

/// The ASCII space.
pub const ASCII_SPACE: u8 = 32;

/// The ASCII double quote.
pub const ASCII_QUOTE: u8 = 34;

/// The ASCII comma.
pub const ASCII_COMMA: u8 = 44;

/// The bytes of `\r\n`.
pub open spec fn crlf() -> Seq<u8> {
    seq![13u8, 10u8]
}

/// The bytes of `PROTOCOLINFO 1\r\n`.
pub open spec fn protocolinfo_line_bytes() -> Seq<u8> {
    seq![
        80u8, 82u8, 79u8, 84u8, 79u8, 67u8, 79u8, 76u8, 73u8, 78u8, 70u8, 79u8, 32u8, 49u8, 13u8,
        10u8,
    ]
}

/// The bytes of `AUTHENTICATE ` (with the trailing space).
pub open spec fn authenticate_kw() -> Seq<u8> {
    seq![65u8, 85u8, 84u8, 72u8, 69u8, 78u8, 84u8, 73u8, 67u8, 65u8, 84u8, 69u8, 32u8]
}

/// The bytes of `TAKEOWNERSHIP\r\n`.
pub open spec fn takeownership_line_bytes() -> Seq<u8> {
    seq![84u8, 65u8, 75u8, 69u8, 79u8, 87u8, 78u8, 69u8, 82u8, 83u8, 72u8, 73u8, 80u8, 13u8, 10u8]
}

/// The bytes of `ADD_ONION NEW:ED25519-V3 Port=`.
pub open spec fn add_onion_kw() -> Seq<u8> {
    seq![
        65u8, 68u8, 68u8, 95u8, 79u8, 78u8, 73u8, 79u8, 78u8, 32u8, 78u8, 69u8, 87u8, 58u8, 69u8,
        68u8, 50u8, 53u8, 53u8, 49u8, 57u8, 45u8, 86u8, 51u8, 32u8, 80u8, 111u8, 114u8, 116u8,
        61u8,
    ]
}

/// The bytes of `,127.0.0.1:`.
pub open spec fn local_host_kw() -> Seq<u8> {
    seq![44u8, 49u8, 50u8, 55u8, 46u8, 48u8, 46u8, 48u8, 46u8, 49u8, 58u8]
}

/// The bytes of `ServiceID=`.
pub open spec fn service_id_kw() -> Seq<u8> {
    seq![83u8, 101u8, 114u8, 118u8, 105u8, 99u8, 101u8, 73u8, 68u8, 61u8]
}

/// The bytes of `AUTH`.
pub open spec fn auth_kw() -> Seq<u8> {
    seq![65u8, 85u8, 84u8, 72u8]
}

/// The bytes of `METHODS=`.
pub open spec fn methods_kw() -> Seq<u8> {
    seq![77u8, 69u8, 84u8, 72u8, 79u8, 68u8, 83u8, 61u8]
}

/// The bytes of `COOKIEFILE=`.
pub open spec fn cookiefile_kw() -> Seq<u8> {
    seq![67u8, 79u8, 79u8, 75u8, 73u8, 69u8, 70u8, 73u8, 76u8, 69u8, 61u8]
}

/// The bytes of `COOKIE`.
pub open spec fn cookie_method_kw() -> Seq<u8> {
    seq![67u8, 79u8, 79u8, 75u8, 73u8, 69u8]
}

/// The bytes of `HASHEDPASSWORD`.
pub open spec fn hashed_password_method_kw() -> Seq<u8> {
    seq![72u8, 65u8, 83u8, 72u8, 69u8, 68u8, 80u8, 65u8, 83u8, 83u8, 87u8, 79u8, 82u8, 68u8]
}

/// The bytes of `NULL`.
pub open spec fn null_method_kw() -> Seq<u8> {
    seq![78u8, 85u8, 76u8, 76u8]
}

// ---------------------------------------------------------------------------
// Command lines.
// ---------------------------------------------------------------------------

/// Build `PROTOCOLINFO 1\r\n`.
pub fn protocolinfo_line() -> (r: Vec<u8>)
    ensures
        r@ == protocolinfo_line_bytes(),
{
    let mut r: Vec<u8> = Vec::new();
    r.push(80);
    r.push(82);
    r.push(79);
    r.push(84);
    r.push(79);
    r.push(67);
    r.push(79);
    r.push(76);
    r.push(73);
    r.push(78);
    r.push(70);
    r.push(79);
    r.push(32);
    r.push(49);
    r.push(13);
    r.push(10);
    proof {
        assert(r@ =~= protocolinfo_line_bytes());
    }
    r
}

/// Build `AUTHENTICATE <hex cookie>\r\n`: the cookie travels as
/// lower-case hexadecimal.
pub fn authenticate_cookie_line(cookie: &[u8]) -> (r: Vec<u8>)
    ensures
        r@ == authenticate_kw() + hex_seq(cookie@) + crlf(),
{
    let mut r: Vec<u8> = Vec::new();
    r.push(65);
    r.push(85);
    r.push(84);
    r.push(72);
    r.push(69);
    r.push(78);
    r.push(84);
    r.push(73);
    r.push(67);
    r.push(65);
    r.push(84);
    r.push(69);
    r.push(32);
    let h = crate::bytes::hex_encode(cookie);
    push_all(&mut r, h.as_slice());
    r.push(13);
    r.push(10);
    proof {
        assert(r@ =~= authenticate_kw() + hex_seq(cookie@) + crlf());
    }
    r
}

/// Build `AUTHENTICATE\r\n`, the null-authentication form.
pub fn authenticate_null_line() -> (r: Vec<u8>)
    ensures
        r@ == seq![65u8, 85u8, 84u8, 72u8, 69u8, 78u8, 84u8, 73u8, 67u8, 65u8, 84u8, 69u8]
            + crlf(),
{
    let mut r: Vec<u8> = Vec::new();
    r.push(65);
    r.push(85);
    r.push(84);
    r.push(72);
    r.push(69);
    r.push(78);
    r.push(84);
    r.push(73);
    r.push(67);
    r.push(65);
    r.push(84);
    r.push(69);
    r.push(13);
    r.push(10);
    proof {
        assert(r@ =~= seq![65u8, 85u8, 84u8, 72u8, 69u8, 78u8, 84u8, 73u8, 67u8, 65u8, 84u8, 69u8]
            + crlf());
    }
    r
}

/// Build `TAKEOWNERSHIP\r\n`.
pub fn takeownership_line() -> (r: Vec<u8>)
    ensures
        r@ == takeownership_line_bytes(),
{
    let mut r: Vec<u8> = Vec::new();
    r.push(84);
    r.push(65);
    r.push(75);
    r.push(69);
    r.push(79);
    r.push(87);
    r.push(78);
    r.push(69);
    r.push(82);
    r.push(83);
    r.push(72);
    r.push(73);
    r.push(80);
    r.push(13);
    r.push(10);
    proof {
        assert(r@ =~= takeownership_line_bytes());
    }
    r
}

/// The bytes of the registration command for a fresh v3 service:
/// `ADD_ONION NEW:ED25519-V3 Port=<virtual>,127.0.0.1:<local>\r\n`.
pub open spec fn add_onion_line_bytes(virt_port: u16, local_port: u16) -> Seq<u8> {
    add_onion_kw() + dec_seq(virt_port as int) + local_host_kw() + dec_seq(local_port as int)
        + crlf()
}

/// Build the registration command: the virtual port of the service
/// forwards to the local TCP port.
pub fn add_onion_line(virt_port: u16, local_port: u16) -> (r: Vec<u8>)
    ensures
        r@ == add_onion_line_bytes(virt_port, local_port),
{
    let mut r: Vec<u8> = Vec::new();
    r.push(65);
    r.push(68);
    r.push(68);
    r.push(95);
    r.push(79);
    r.push(78);
    r.push(73);
    r.push(79);
    r.push(78);
    r.push(32);
    r.push(78);
    r.push(69);
    r.push(87);
    r.push(58);
    r.push(69);
    r.push(68);
    r.push(50);
    r.push(53);
    r.push(53);
    r.push(49);
    r.push(57);
    r.push(45);
    r.push(86);
    r.push(51);
    r.push(32);
    r.push(80);
    r.push(111);
    r.push(114);
    r.push(116);
    r.push(61);
    let t = render_dec_u16(virt_port);
    push_all(&mut r, t.as_slice());
    r.push(44);
    r.push(49);
    r.push(50);
    r.push(55);
    r.push(46);
    r.push(48);
    r.push(46);
    r.push(48);
    r.push(46);
    r.push(49);
    r.push(58);
    let t = render_dec_u16(local_port);
    push_all(&mut r, t.as_slice());
    r.push(13);
    r.push(10);
    proof {
        assert(r@ =~= add_onion_line_bytes(virt_port, local_port));
    }
    r
}

// ---------------------------------------------------------------------------
// Reply lines.
// ---------------------------------------------------------------------------

/// Whether a line has the reply shape: three digits, then a space
/// (final line) or a dash (more lines follow).
pub open spec fn reply_line_ok(line: Seq<u8>) -> bool {
    &&& line.len() >= 4
    &&& is_digit(line[0])
    &&& is_digit(line[1])
    &&& is_digit(line[2])
    &&& (line[3] == ASCII_SPACE || line[3] == 45)
}

/// The status code of a reply line.
pub open spec fn reply_code_of(line: Seq<u8>) -> int {
    100 * (line[0] - ASCII_ZERO) + 10 * (line[1] - ASCII_ZERO) + (line[2] - ASCII_ZERO)
}

/// Whether a reply line is the final line of its reply.
pub open spec fn reply_is_final(line: Seq<u8>) -> bool {
    line[3] == ASCII_SPACE
}

/// Read the status code of a reply line, and whether it ends the
/// reply.  Succeeds exactly on lines of the reply shape.
pub fn parse_reply_line(line: &[u8]) -> (r: Option<(u16, bool)>)
    ensures
        r is Some <==> reply_line_ok(line@),
        r matches Some(p) ==> p.0 == reply_code_of(line@) && p.1 == reply_is_final(line@),
{
    if line.len() < 4 {
        return None;
    }
    let d0 = line[0];
    let d1 = line[1];
    let d2 = line[2];
    let sep = line[3];
    if d0 < 48 || d0 > 57 || d1 < 48 || d1 > 57 || d2 < 48 || d2 > 57 {
        return None;
    }
    if sep != ASCII_SPACE && sep != 45 {
        return None;
    }
    let code: u16 = 100 * (d0 - 48) as u16 + 10 * (d1 - 48) as u16 + (d2 - 48) as u16;
    Some((code, sep == ASCII_SPACE))
}

/// The text of a reply line: what follows the code and separator.
pub fn reply_text(line: &[u8]) -> (r: Vec<u8>)
    requires
        line@.len() >= 4,
    ensures
        r@ == line@.skip(4),
{
    let r = crate::bytes::copy_range(line, 4, line.len());
    proof {
        assert(line@.subrange(4, line@.len() as int) =~= line@.skip(4));
    }
    r
}

// ---------------------------------------------------------------------------
// The PROTOCOLINFO reply: authentication methods and cookie file.
// ---------------------------------------------------------------------------

/// The authentication methods a daemon offers, as far as this client
/// can use them.
#[derive(Clone, Copy, Debug, PartialEq, Eq, Structural)]
pub struct AuthMethods {
    /// `COOKIE`: authenticate with the bytes of the cookie file.
    pub cookie: bool,
    /// `HASHEDPASSWORD`: authenticate with a configured password.
    pub hashed_password: bool,
    /// `NULL`: authenticate with a bare `AUTHENTICATE`.
    pub null: bool,
}

/// Whether the comma-separated method list names `kw`.
pub open spec fn has_method(list: Seq<u8>, kw: Seq<u8>) -> bool {
    exists|i: int| 0 <= i < split_sep(list, ASCII_COMMA).len() && split_sep(list, ASCII_COMMA)[i] == kw
}

/// One more piece either is the keyword or leaves the search where it
/// was.
proof fn lemma_method_search_step(pviews: Seq<Seq<u8>>, kw: Seq<u8>, i: int, matched: bool)
    requires
        0 <= i < pviews.len(),
        matched == (pviews[i] == kw),
    ensures
        (exists|j: int| 0 <= j < i + 1 && pviews[j] == kw) == ((exists|j: int|
            0 <= j < i && pviews[j] == kw) || matched),
{
    if exists|j: int| 0 <= j < i + 1 && pviews[j] == kw {
        let j = choose|j: int| 0 <= j < i + 1 && pviews[j] == kw;
        if j == i {
            assert(matched);
        } else {
            assert(0 <= j < i && pviews[j] == kw);
        }
    }
    if matched {
        assert(0 <= i < i + 1 && pviews[i] == kw);
    }
    if exists|j: int| 0 <= j < i && pviews[j] == kw {
        let j = choose|j: int| 0 <= j < i && pviews[j] == kw;
        assert(0 <= j < i + 1 && pviews[j] == kw);
    }
}

/// Read a comma-separated method list.
pub fn parse_methods(list: &[u8]) -> (r: AuthMethods)
    ensures
        r.cookie == has_method(list@, cookie_method_kw()),
        r.hashed_password == has_method(list@, hashed_password_method_kw()),
        r.null == has_method(list@, null_method_kw()),
{
    let pieces = crate::multiaddr::split_from(list, 0, ASCII_COMMA);
    proof {
        assert(list@.skip(0) =~= list@);
    }
    let ghost pviews = pieces@.map_values(|v: Vec<u8>| v@);
    let mut cookie = false;
    let mut hashed_password = false;
    let mut null = false;
    let mut i: usize = 0;
    while i < pieces.len()
        invariant
            0 <= i <= pieces@.len(),
            pviews == pieces@.map_values(|v: Vec<u8>| v@),
            pviews == split_sep(list@, ASCII_COMMA),
            cookie == exists|j: int| 0 <= j < i && pviews[j] == cookie_method_kw(),
            hashed_password == exists|j: int|
                0 <= j < i && pviews[j] == hashed_password_method_kw(),
            null == exists|j: int| 0 <= j < i && pviews[j] == null_method_kw(),
        decreases pieces@.len() - i,
    {
        let mut kw: Vec<u8> = Vec::new();
        kw.push(67);
        kw.push(79);
        kw.push(79);
        kw.push(75);
        kw.push(73);
        kw.push(69);
        proof {
            assert(kw@ =~= cookie_method_kw());
        }
        let m = crate::bytes::bytes_equal(pieces[i].as_slice(), kw.as_slice());
        proof {
            lemma_method_search_step(pviews, cookie_method_kw(), i as int, m);
        }
        if m {
            cookie = true;
        }
        let mut kw: Vec<u8> = Vec::new();
        kw.push(72);
        kw.push(65);
        kw.push(83);
        kw.push(72);
        kw.push(69);
        kw.push(68);
        kw.push(80);
        kw.push(65);
        kw.push(83);
        kw.push(83);
        kw.push(87);
        kw.push(79);
        kw.push(82);
        kw.push(68);
        proof {
            assert(kw@ =~= hashed_password_method_kw());
        }
        let m = crate::bytes::bytes_equal(pieces[i].as_slice(), kw.as_slice());
        proof {
            lemma_method_search_step(pviews, hashed_password_method_kw(), i as int, m);
        }
        if m {
            hashed_password = true;
        }
        let mut kw: Vec<u8> = Vec::new();
        kw.push(78);
        kw.push(85);
        kw.push(76);
        kw.push(76);
        proof {
            assert(kw@ =~= null_method_kw());
        }
        let m = crate::bytes::bytes_equal(pieces[i].as_slice(), kw.as_slice());
        proof {
            lemma_method_search_step(pviews, null_method_kw(), i as int, m);
        }
        if m {
            null = true;
        }
        i += 1;
    }
    AuthMethods { cookie, hashed_password, null }
}

/// One authentication method, chosen.
#[derive(Clone, Copy, Debug, PartialEq, Eq, Structural)]
pub enum AuthChoice {
    /// Send the hex of the cookie file's bytes.
    Cookie,
    /// Send the configured password.
    HashedPassword,
    /// Send a bare `AUTHENTICATE`.
    Null,
}

/// Whether `s` starts with the bytes of `p`.
fn starts_with(s: &[u8], p: &Vec<u8>) -> (r: bool)
    ensures
        r == (s@.len() >= p@.len() && s@.take(p@.len() as int) == p@),
{
    if s.len() < p.len() {
        return false;
    }
    let head = crate::bytes::copy_range(s, 0, p.len());
    proof {
        assert(head@ =~= s@.take(p@.len() as int));
    }
    crate::bytes::bytes_equal(head.as_slice(), p.as_slice())
}

/// The `AUTH` line of a PROTOCOLINFO reply is in order when its first
/// word is `AUTH` and its second starts with `METHODS=`.
pub open spec fn auth_line_ok(text: Seq<u8>) -> bool {
    let ps = split_sep(text, ASCII_SPACE);
    &&& ps.len() >= 2
    &&& ps[0] == auth_kw()
    &&& ps[1].len() >= 8
    &&& ps[1].take(8) == methods_kw()
}

/// The method list of an `AUTH` line: what follows `METHODS=` in its
/// second word.
pub open spec fn auth_methods_list(text: Seq<u8>) -> Seq<u8> {
    split_sep(text, ASCII_SPACE)[1].skip(8)
}

/// The cookie path a word names: `COOKIEFILE="<path>"`, the path
/// taken verbatim from between the quotes.
pub open spec fn cookiefile_piece(p: Seq<u8>) -> Option<Seq<u8>> {
    if p.len() >= 13 && p.take(11) == cookiefile_kw() && p[11] == ASCII_QUOTE && p.last()
        == ASCII_QUOTE {
        Some(p.subrange(12, p.len() - 1))
    } else {
        None
    }
}

/// The first cookie path named by the words of a line, from `i` on.
pub open spec fn cookiefile_of(ps: Seq<Seq<u8>>, i: int) -> Option<Seq<u8>>
    decreases ps.len() - i,
{
    if i < 0 || i >= ps.len() {
        None
    } else {
        match cookiefile_piece(ps[i]) {
            Some(v) => Some(v),
            None => cookiefile_of(ps, i + 1),
        }
    }
}

/// Try one word as a cookie path.
fn try_cookiefile_piece(p: &Vec<u8>) -> (r: Option<Vec<u8>>)
    ensures
        r is Some <==> cookiefile_piece(p@) is Some,
        r matches Some(v) ==> Some(v@) == cookiefile_piece(p@),
{
    let mut kw: Vec<u8> = Vec::new();
    kw.push(67);
    kw.push(79);
    kw.push(79);
    kw.push(75);
    kw.push(73);
    kw.push(69);
    kw.push(70);
    kw.push(73);
    kw.push(76);
    kw.push(69);
    kw.push(61);
    proof {
        assert(kw@ =~= cookiefile_kw());
    }
    if p.len() < 13 {
        return None;
    }
    if !starts_with(p.as_slice(), &kw) {
        return None;
    }
    if p[11] != ASCII_QUOTE {
        return None;
    }
    if p[p.len() - 1] != ASCII_QUOTE {
        return None;
    }
    let v = crate::bytes::copy_range(p.as_slice(), 12, p.len() - 1);
    Some(v)
}

/// Read the `AUTH` line of a PROTOCOLINFO reply (its text, after the
/// status code): the offered methods, and the cookie path if one of
/// the line's words names one.
///
/// Succeeds exactly on lines whose first word is `AUTH` and whose
/// second starts with `METHODS=`.
pub fn parse_auth_line(text: &[u8]) -> (r: Option<(AuthMethods, Option<Vec<u8>>)>)
    ensures
        r is Some <==> auth_line_ok(text@),
        r matches Some(p) ==> {
            &&& p.0.cookie == has_method(auth_methods_list(text@), cookie_method_kw())
            &&& p.0.hashed_password == has_method(
                auth_methods_list(text@),
                hashed_password_method_kw(),
            )
            &&& p.0.null == has_method(auth_methods_list(text@), null_method_kw())
            &&& (p.1 is Some <==> cookiefile_of(split_sep(text@, ASCII_SPACE), 2) is Some)
            &&& (p.1 matches Some(v) ==> Some(v@) == cookiefile_of(
                split_sep(text@, ASCII_SPACE),
                2,
            ))
        },
{
    let pieces = crate::multiaddr::split_from(text, 0, ASCII_SPACE);
    proof {
        assert(text@.skip(0) =~= text@);
    }
    let ghost pviews = pieces@.map_values(|v: Vec<u8>| v@);
    if pieces.len() < 2 {
        return None;
    }
    let mut kw: Vec<u8> = Vec::new();
    kw.push(65);
    kw.push(85);
    kw.push(84);
    kw.push(72);
    proof {
        assert(kw@ =~= auth_kw());
    }
    if !crate::bytes::bytes_equal(pieces[0].as_slice(), kw.as_slice()) {
        return None;
    }
    let mut kw: Vec<u8> = Vec::new();
    kw.push(77);
    kw.push(69);
    kw.push(84);
    kw.push(72);
    kw.push(79);
    kw.push(68);
    kw.push(83);
    kw.push(61);
    proof {
        assert(kw@ =~= methods_kw());
    }
    if !starts_with(pieces[1].as_slice(), &kw) {
        return None;
    }
    let list = crate::bytes::copy_range(pieces[1].as_slice(), 8, pieces[1].len());
    proof {
        assert(list@ =~= auth_methods_list(text@));
    }
    let methods = parse_methods(list.as_slice());
    let mut cookie_path: Option<Vec<u8>> = None;
    let mut done = false;
    let mut i: usize = 2;
    while i < pieces.len()
        invariant
            2 <= i <= pieces@.len(),
            pviews == pieces@.map_values(|v: Vec<u8>| v@),
            !done ==> cookie_path is None && cookiefile_of(pviews, 2) == cookiefile_of(
                pviews,
                i as int,
            ),
            done ==> (cookie_path matches Some(v) && Some(v@) == cookiefile_of(pviews, 2)),
        decreases pieces@.len() - i,
    {
        if !done {
            match try_cookiefile_piece(&pieces[i]) {
                Some(v) => {
                    proof {
                        assert(cookiefile_of(pviews, i as int) == Some(v@));
                    }
                    cookie_path = Some(v);
                    done = true;
                },
                None => {
                    proof {
                        assert(cookiefile_of(pviews, i as int) == cookiefile_of(pviews, i + 1));
                    }
                },
            }
        }
        i += 1;
    }
    proof {
        if !done {
            assert(cookiefile_of(pviews, i as int) is None);
        }
    }
    Some((methods, cookie_path))
}

/// Choose the authentication method, in the fixed priority order:
/// cookie file first, then hashed password, then null; none of the
/// three means the daemon cannot be used.
pub fn choose_auth_method(m: &AuthMethods) -> (r: Option<AuthChoice>)
    ensures
        r == (if m.cookie {
            Some(AuthChoice::Cookie)
        } else if m.hashed_password {
            Some(AuthChoice::HashedPassword)
        } else if m.null {
            Some(AuthChoice::Null)
        } else {
            None::<AuthChoice>
        }),
{
    if m.cookie {
        Some(AuthChoice::Cookie)
    } else if m.hashed_password {
        Some(AuthChoice::HashedPassword)
    } else if m.null {
        Some(AuthChoice::Null)
    } else {
        None
    }
}

// ---------------------------------------------------------------------------
// The registration session.
//
// The session walks strictly forward: each command is sent, its reply
// decides the next command, and any error closes the session for
// good.  The program around the library owns the socket; it performs
// each returned action and feeds the reply back in.
// ---------------------------------------------------------------------------

/// Where the session stands, command by command.
#[derive(Clone, Copy, Debug, PartialEq, Eq, Structural)]
pub enum SessionPhase {
    /// Nothing sent yet.
    Start,
    /// `PROTOCOLINFO 1` sent, awaiting its reply.
    SentProtocolInfo,
    /// `AUTHENTICATE` sent, awaiting its reply.
    SentAuthenticate,
    /// `TAKEOWNERSHIP` sent, awaiting its reply.
    SentTakeOwnership,
    /// `ADD_ONION` sent, awaiting its reply.
    SentAddOnion,
    /// The service is registered; the session is only held open.
    Done,
    /// A failure ended the session; it is unusable.
    Closed,
}

/// The session's standing towards the daemon.
#[derive(Clone, Copy, Debug, PartialEq, Eq, Structural)]
pub enum SessionState {
    /// Not yet authenticated.
    Unauthenticated,
    /// Authenticated, not yet owning the daemon.
    Authenticated,
    /// Owning the daemon: closing the session terminates it.
    Owning,
    /// Ended; no further commands are possible.
    Closed,
}

/// The standing each phase is in.
pub open spec fn session_state_of(p: SessionPhase) -> SessionState {
    match p {
        SessionPhase::Start => SessionState::Unauthenticated,
        SessionPhase::SentProtocolInfo => SessionState::Unauthenticated,
        SessionPhase::SentAuthenticate => SessionState::Unauthenticated,
        SessionPhase::SentTakeOwnership => SessionState::Authenticated,
        SessionPhase::SentAddOnion => SessionState::Owning,
        SessionPhase::Done => SessionState::Owning,
        SessionPhase::Closed => SessionState::Closed,
    }
}

/// The standing of a phase.
pub fn session_state(p: &SessionPhase) -> (r: SessionState)
    ensures
        r == session_state_of(*p),
{
    match p {
        SessionPhase::Start => SessionState::Unauthenticated,
        SessionPhase::SentProtocolInfo => SessionState::Unauthenticated,
        SessionPhase::SentAuthenticate => SessionState::Unauthenticated,
        SessionPhase::SentTakeOwnership => SessionState::Authenticated,
        SessionPhase::SentAddOnion => SessionState::Owning,
        SessionPhase::Done => SessionState::Owning,
        SessionPhase::Closed => SessionState::Closed,
    }
}

/// How far along a phase is; transitions only ever increase this.
pub open spec fn phase_rank(p: SessionPhase) -> int {
    match p {
        SessionPhase::Start => 0,
        SessionPhase::SentProtocolInfo => 1,
        SessionPhase::SentAuthenticate => 2,
        SessionPhase::SentTakeOwnership => 3,
        SessionPhase::SentAddOnion => 4,
        SessionPhase::Done => 5,
        SessionPhase::Closed => 6,
    }
}

/// What the session asks its driver to do next.
#[derive(Clone, Debug, PartialEq, Eq)]
pub enum SessionAction {
    /// Send these bytes to the control port and read a reply.
    Send(Vec<u8>),
    /// Registration finished: the service is reachable under this
    /// address.
    Finished(OnionAddr),
    /// Stop: the session failed for this reason.
    Fail(Error),
}

/// What the session needs to know: the prepared `AUTHENTICATE` line,
/// and the two ports of the forward.
pub struct SessionConfig {
    /// The authentication line, built for the chosen method.
    pub auth_line: Vec<u8>,
    /// The public virtual port of the service.
    pub virt_port: u16,
    /// The local TCP port the virtual port forwards to.
    pub local_port: u16,
}

/// Open the session: the first command is `PROTOCOLINFO 1`.
pub fn begin_session() -> (r: (SessionPhase, Vec<u8>))
    ensures
        r.0 == SessionPhase::SentProtocolInfo,
        r.1@ == protocolinfo_line_bytes(),
{
    (SessionPhase::SentProtocolInfo, protocolinfo_line())
}

/// The service identifier of an `ADD_ONION` data line: what follows
/// `ServiceID=`.
pub open spec fn service_id_of(text: Seq<u8>) -> Option<Seq<u8>> {
    if text.len() >= 10 && text.take(10) == service_id_kw() {
        Some(text.skip(10))
    } else {
        None
    }
}

/// Whether an `ADD_ONION` data line names a sound service: 56 base32
/// characters whose 35 bytes carry version 3 and a matching checksum.
pub open spec fn add_onion_ok(text: Seq<u8>) -> bool {
    &&& service_id_of(text) is Some
    &&& service_id_of(text)->0.len() == 56
    &&& (forall|i: int|
        0 <= i < 56 ==> crate::base32::is_b32(#[trigger] service_id_of(text)->0[i]))
    &&& crate::onion::onion_key_wf(crate::base32::b32_decode(service_id_of(text)->0))
}

/// Read the service identifier out of an `ADD_ONION` data line.
fn parse_service_id(text: &[u8]) -> (r: Option<Vec<u8>>)
    ensures
        r is Some <==> service_id_of(text@) is Some,
        r matches Some(v) ==> Some(v@) == service_id_of(text@),
{
    let mut kw: Vec<u8> = Vec::new();
    kw.push(83);
    kw.push(101);
    kw.push(114);
    kw.push(118);
    kw.push(105);
    kw.push(99);
    kw.push(101);
    kw.push(73);
    kw.push(68);
    kw.push(61);
    proof {
        assert(kw@ =~= service_id_kw());
    }
    if !starts_with(text, &kw) {
        return None;
    }
    let v = crate::bytes::copy_range(text, 10, text.len());
    proof {
        assert(v@ =~= text@.skip(10));
    }
    Some(v)
}

/// Drive the session one reply forward.
///
/// `code` is the status code of the reply to the last command and
/// `data` the text of the reply's first line.  A 250 advances the
/// session: it sends the authentication line, asserts ownership,
/// registers the service, and finally hands out the onion address
/// read from the `ServiceID=` line, its checksum verified.  Any other
/// code closes the session with the error of the failed stage.  The
/// phase only ever moves forward.
pub fn session_step(phase: SessionPhase, code: u16, data: &[u8], config: &SessionConfig) -> (r: (
    SessionPhase,
    SessionAction,
))
    requires
        phase == SessionPhase::SentProtocolInfo || phase == SessionPhase::SentAuthenticate || phase
            == SessionPhase::SentTakeOwnership || phase == SessionPhase::SentAddOnion,
    ensures
        phase_rank(r.0) > phase_rank(phase),
        phase == SessionPhase::SentProtocolInfo ==> (if code == 250 {
            &&& r.0 == SessionPhase::SentAuthenticate
            &&& r.1 matches SessionAction::Send(l) && l@ == config.auth_line@
        } else {
            &&& r.0 == SessionPhase::Closed
            &&& r.1 matches SessionAction::Fail(e) && e == Error::ControlAuth
        }),
        phase == SessionPhase::SentAuthenticate ==> (if code == 250 {
            &&& r.0 == SessionPhase::SentTakeOwnership
            &&& r.1 matches SessionAction::Send(l) && l@ == takeownership_line_bytes()
        } else {
            &&& r.0 == SessionPhase::Closed
            &&& r.1 matches SessionAction::Fail(e) && e == Error::ControlAuth
        }),
        phase == SessionPhase::SentTakeOwnership ==> (if code == 250 {
            &&& r.0 == SessionPhase::SentAddOnion
            &&& r.1 matches SessionAction::Send(l) && l@ == add_onion_line_bytes(
                config.virt_port,
                config.local_port,
            )
        } else {
            &&& r.0 == SessionPhase::Closed
            &&& r.1 matches SessionAction::Fail(e) && e == Error::ControlProtocol
        }),
        phase == SessionPhase::SentAddOnion ==> (if code == 250 && add_onion_ok(data@) {
            &&& r.0 == SessionPhase::Done
            &&& r.1 matches SessionAction::Finished(a) && a.key@ == crate::base32::b32_decode(
                service_id_of(data@)->0,
            ) && a.port == config.virt_port && a.wf()
        } else {
            &&& r.0 == SessionPhase::Closed
            &&& r.1 matches SessionAction::Fail(e) && e == Error::OnionRegister
        }),
{
    match phase {
        SessionPhase::SentProtocolInfo => {
            if code == 250 {
                let line = crate::bytes::copy_range(
                    config.auth_line.as_slice(),
                    0,
                    config.auth_line.len(),
                );
                proof {
                    assert(line@ =~= config.auth_line@);
                }
                (SessionPhase::SentAuthenticate, SessionAction::Send(line))
            } else {
                (SessionPhase::Closed, SessionAction::Fail(Error::ControlAuth))
            }
        },
        SessionPhase::SentAuthenticate => {
            if code == 250 {
                (SessionPhase::SentTakeOwnership, SessionAction::Send(takeownership_line()))
            } else {
                (SessionPhase::Closed, SessionAction::Fail(Error::ControlAuth))
            }
        },
        SessionPhase::SentTakeOwnership => {
            if code == 250 {
                (
                    SessionPhase::SentAddOnion,
                    SessionAction::Send(add_onion_line(config.virt_port, config.local_port)),
                )
            } else {
                (SessionPhase::Closed, SessionAction::Fail(Error::ControlProtocol))
            }
        },
        _ => {
            if code == 250 {
                match parse_service_id(data) {
                    Some(id) => {
                        match OnionAddr::from_service_id(id.as_slice(), config.virt_port) {
                            Ok(addr) => (SessionPhase::Done, SessionAction::Finished(addr)),
                            Err(_) => (
                                SessionPhase::Closed,
                                SessionAction::Fail(Error::OnionRegister),
                            ),
                        }
                    },
                    None => (SessionPhase::Closed, SessionAction::Fail(Error::OnionRegister)),
                }
            } else {
                (SessionPhase::Closed, SessionAction::Fail(Error::OnionRegister))
            }
        },
    }
}

} // verus!
