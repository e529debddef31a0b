use vstd::prelude::*;

use crate::bytes::ASCII_LOWER_A;

verus! {

// ---------------------------------------------------------------------------
// The base32 form used by Tor v3 onion addresses: the RFC 4648 alphabet in
// lower case (`a`..`z` then `2`..`7`), without padding.  Five bytes become
// eight characters of five bits each, most significant bits first.
// ---------------------------------------------------------------------------

/// The ASCII letter `z`.
pub const ASCII_LOWER_Z: u8 = 122;

/// The ASCII digit `2`.
pub const ASCII_TWO: u8 = 50;

/// The ASCII digit `7`.
pub const ASCII_SEVEN: u8 = 55;

/// Whether `c` is a character of the lower-case base32 alphabet.
pub open spec fn is_b32(c: u8) -> bool {
    (ASCII_LOWER_A <= c && c <= ASCII_LOWER_Z) || (ASCII_TWO <= c && c <= ASCII_SEVEN)
}

/// The alphabet character of a five-bit value.
pub open spec fn b32_char(v: u8) -> u8 {
    if v < 26 {
        (ASCII_LOWER_A + v) as u8
    } else {
        (v + 24) as u8
    }
}

/// The five-bit value of an alphabet character.
pub open spec fn b32_val(c: u8) -> u8 {
    if ASCII_LOWER_A <= c {
        (c - ASCII_LOWER_A) as u8
    } else {
        (c - 24) as u8
    }
}

/// Encoding a five-bit value and reading it back is the identity.
proof fn lemma_char_val(v: u8)
    requires
        v < 32,
    ensures
        is_b32(b32_char(v)),
        b32_val(b32_char(v)) == v,
{
}

/// Reading a valid character and encoding it again is the identity.
proof fn lemma_val_char(c: u8)
    requires
        is_b32(c),
    ensures
        b32_val(c) < 32,
        b32_char(b32_val(c)) == c,
{
}

/// The forty bits of a five-byte group.
pub open spec fn b32_acc5(b: Seq<u8>) -> u64 {
    ((b[0] as u64) << 32) | ((b[1] as u64) << 24) | ((b[2] as u64) << 16) | ((b[3] as u64) << 8)
        | (b[4] as u64)
}

/// The forty bits of an eight-character group.
pub open spec fn b32_acc8(s: Seq<u8>) -> u64 {
    ((b32_val(s[0]) as u64) << 35) | ((b32_val(s[1]) as u64) << 30) | ((b32_val(s[2]) as u64)
        << 25) | ((b32_val(s[3]) as u64) << 20) | ((b32_val(s[4]) as u64) << 15) | ((b32_val(s[5])
        as u64) << 10) | ((b32_val(s[6]) as u64) << 5) | (b32_val(s[7]) as u64)
}

/// The eight characters that carry forty bits.
pub open spec fn b32_chars_of_acc(acc: u64) -> Seq<u8> {
    seq![
        b32_char(((acc >> 35) & 31) as u8),
        b32_char(((acc >> 30) & 31) as u8),
        b32_char(((acc >> 25) & 31) as u8),
        b32_char(((acc >> 20) & 31) as u8),
        b32_char(((acc >> 15) & 31) as u8),
        b32_char(((acc >> 10) & 31) as u8),
        b32_char(((acc >> 5) & 31) as u8),
        b32_char((acc & 31) as u8),
    ]
}

/// The five bytes that carry forty bits.
pub open spec fn b32_bytes_of_acc(acc: u64) -> Seq<u8> {
    seq![
        ((acc >> 32) & 255) as u8,
        ((acc >> 24) & 255) as u8,
        ((acc >> 16) & 255) as u8,
        ((acc >> 8) & 255) as u8,
        (acc & 255) as u8,
    ]
}

/// The base32 text of a byte string, five bytes at a time.  Trailing
/// bytes short of a full group carry nothing: the encoder requires a
/// length that is a multiple of five.
pub open spec fn b32_encode(s: Seq<u8>) -> Seq<u8>
    decreases s.len(),
{
    if s.len() < 5 {
        Seq::empty()
    } else {
        b32_chars_of_acc(b32_acc5(s.take(5))) + b32_encode(s.skip(5))
    }
}

/// The bytes named by a base32 text, eight characters at a time.
pub open spec fn b32_decode(s: Seq<u8>) -> Seq<u8>
    decreases s.len(),
{
    if s.len() < 8 {
        Seq::empty()
    } else {
        b32_bytes_of_acc(b32_acc8(s.take(8))) + b32_decode(s.skip(8))
    }
}

proof fn lemma_encode_append(s1: Seq<u8>, s2: Seq<u8>)
    requires
        s1.len() % 5 == 0,
    ensures
        b32_encode(s1 + s2) == b32_encode(s1) + b32_encode(s2),
    decreases s1.len(),
{
    if s1.len() == 0 {
        assert(s1 + s2 =~= s2);
        assert(b32_encode(s1) =~= Seq::<u8>::empty());
        assert(b32_encode(s1) + b32_encode(s2) =~= b32_encode(s2));
    } else {
        assert((s1 + s2).take(5) =~= s1.take(5));
        assert((s1 + s2).skip(5) =~= s1.skip(5) + s2);
        lemma_encode_append(s1.skip(5), s2);
        assert(b32_encode(s1 + s2) =~= b32_encode(s1) + b32_encode(s2));
    }
}

proof fn lemma_decode_append(s1: Seq<u8>, s2: Seq<u8>)
    requires
        s1.len() % 8 == 0,
    ensures
        b32_decode(s1 + s2) == b32_decode(s1) + b32_decode(s2),
    decreases s1.len(),
{
    if s1.len() == 0 {
        assert(s1 + s2 =~= s2);
        assert(b32_decode(s1) =~= Seq::<u8>::empty());
        assert(b32_decode(s1) + b32_decode(s2) =~= b32_decode(s2));
    } else {
        assert((s1 + s2).take(8) =~= s1.take(8));
        assert((s1 + s2).skip(8) =~= s1.skip(8) + s2);
        lemma_decode_append(s1.skip(8), s2);
        assert(b32_decode(s1 + s2) =~= b32_decode(s1) + b32_decode(s2));
    }
}

/// The encoded text of a five-byte group round-trips to the group.
proof fn lemma_block_dec_enc(b: Seq<u8>)
    requires
        b.len() == 5,
    ensures
        b32_chars_of_acc(b32_acc5(b)).len() == 8,
        forall|j: int| 0 <= j < 8 ==> is_b32(#[trigger] b32_chars_of_acc(b32_acc5(b))[j]),
        b32_bytes_of_acc(b32_acc8(b32_chars_of_acc(b32_acc5(b)))) =~= b,
{
    let a0 = b[0] as u64;
    let a1 = b[1] as u64;
    let a2 = b[2] as u64;
    let a3 = b[3] as u64;
    let a4 = b[4] as u64;
    let acc = b32_acc5(b);
    assert(acc == (a0 << 32) | (a1 << 24) | (a2 << 16) | (a3 << 8) | a4);
    let g0 = (acc >> 35) & 31;
    let g1 = (acc >> 30) & 31;
    let g2 = (acc >> 25) & 31;
    let g3 = (acc >> 20) & 31;
    let g4 = (acc >> 15) & 31;
    let g5 = (acc >> 10) & 31;
    let g6 = (acc >> 5) & 31;
    let g7 = acc & 31;
    assert(g0 < 32 && g1 < 32 && g2 < 32 && g3 < 32 && g4 < 32 && g5 < 32 && g6 < 32 && g7 < 32
        && ((g0 << 35) | (g1 << 30) | (g2 << 25) | (g3 << 20) | (g4 << 15) | (g5 << 10) | (g6 << 5)
        | g7) == acc && ((acc >> 32) & 255) == a0 && ((acc >> 24) & 255) == a1 && ((acc >> 16)
        & 255) == a2 && ((acc >> 8) & 255) == a3 && (acc & 255) == a4) by (bit_vector)
        requires
            a0 < 256 && a1 < 256 && a2 < 256 && a3 < 256 && a4 < 256 && acc == (a0 << 32) | (a1
                << 24) | (a2 << 16) | (a3 << 8) | a4 && g0 == (acc >> 35) & 31 && g1 == (acc >> 30)
                & 31 && g2 == (acc >> 25) & 31 && g3 == (acc >> 20) & 31 && g4 == (acc >> 15) & 31
                && g5 == (acc >> 10) & 31 && g6 == (acc >> 5) & 31 && g7 == acc & 31,
    ;
    lemma_char_val(g0 as u8);
    lemma_char_val(g1 as u8);
    lemma_char_val(g2 as u8);
    lemma_char_val(g3 as u8);
    lemma_char_val(g4 as u8);
    lemma_char_val(g5 as u8);
    lemma_char_val(g6 as u8);
    lemma_char_val(g7 as u8);
    let cs = b32_chars_of_acc(acc);
    assert(b32_acc8(cs) == (g0 << 35) | (g1 << 30) | (g2 << 25) | (g3 << 20) | (g4 << 15) | (g5
        << 10) | (g6 << 5) | g7);
}

/// The decoded bytes of a valid eight-character group round-trip to the
/// group.
proof fn lemma_block_enc_dec(s: Seq<u8>)
    requires
        s.len() == 8,
        forall|j: int| 0 <= j < 8 ==> is_b32(#[trigger] s[j]),
    ensures
        b32_bytes_of_acc(b32_acc8(s)).len() == 5,
        b32_chars_of_acc(b32_acc5(b32_bytes_of_acc(b32_acc8(s)))) =~= s,
{
    lemma_val_char(s[0]);
    lemma_val_char(s[1]);
    lemma_val_char(s[2]);
    lemma_val_char(s[3]);
    lemma_val_char(s[4]);
    lemma_val_char(s[5]);
    lemma_val_char(s[6]);
    lemma_val_char(s[7]);
    let v0 = b32_val(s[0]) as u64;
    let v1 = b32_val(s[1]) as u64;
    let v2 = b32_val(s[2]) as u64;
    let v3 = b32_val(s[3]) as u64;
    let v4 = b32_val(s[4]) as u64;
    let v5 = b32_val(s[5]) as u64;
    let v6 = b32_val(s[6]) as u64;
    let v7 = b32_val(s[7]) as u64;
    let acc = b32_acc8(s);
    assert(acc == (v0 << 35) | (v1 << 30) | (v2 << 25) | (v3 << 20) | (v4 << 15) | (v5 << 10) | (v6
        << 5) | v7);
    let b0 = (acc >> 32) & 255;
    let b1 = (acc >> 24) & 255;
    let b2 = (acc >> 16) & 255;
    let b3 = (acc >> 8) & 255;
    let b4 = acc & 255;
    assert(((acc >> 35) & 31) == v0 && ((acc >> 30) & 31) == v1 && ((acc >> 25) & 31) == v2 && ((
    acc >> 20) & 31) == v3 && ((acc >> 15) & 31) == v4 && ((acc >> 10) & 31) == v5 && ((acc >> 5)
        & 31) == v6 && (acc & 31) == v7 && acc >> 40 == 0) by (bit_vector)
        requires
            v0 < 32 && v1 < 32 && v2 < 32 && v3 < 32 && v4 < 32 && v5 < 32 && v6 < 32 && v7 < 32
                && acc == (v0 << 35) | (v1 << 30) | (v2 << 25) | (v3 << 20) | (v4 << 15) | (v5
                << 10) | (v6 << 5) | v7,
    ;
    assert(b0 < 256 && b1 < 256 && b2 < 256 && b3 < 256 && b4 < 256 && ((b0 << 32) | (b1 << 24)
        | (b2 << 16) | (b3 << 8) | b4) == acc) by (bit_vector)
        requires
            acc >> 40 == 0 && b0 == (acc >> 32) & 255 && b1 == (acc >> 24) & 255 && b2 == (acc
                >> 16) & 255 && b3 == (acc >> 8) & 255 && b4 == acc & 255,
    ;
    let bs = b32_bytes_of_acc(acc);
    assert(b32_acc5(bs) == (b0 << 32) | (b1 << 24) | (b2 << 16) | (b3 << 8) | b4);
}

/// The length of the encoded text: eight characters for each five
/// bytes.
pub proof fn lemma_b32_encode_len(s: Seq<u8>)
    requires
        s.len() % 5 == 0,
    ensures
        b32_encode(s).len() == 8 * (s.len() / 5),
    decreases s.len(),
{
    if s.len() >= 5 {
        lemma_b32_encode_len(s.skip(5));
    }
}

/// Decoding the encoded text of a byte string gives the byte string
/// back, and the text is valid base32.
pub proof fn lemma_b32_decode_encode(s: Seq<u8>)
    requires
        s.len() % 5 == 0,
    ensures
        b32_encode(s).len() % 8 == 0,
        forall|i: int| 0 <= i < b32_encode(s).len() ==> is_b32(#[trigger] b32_encode(s)[i]),
        b32_decode(b32_encode(s)) == s,
    decreases s.len(),
{
    if s.len() == 0 {
        assert(b32_decode(b32_encode(s)) =~= s);
    } else {
        let head = s.take(5);
        let tail = s.skip(5);
        lemma_block_dec_enc(head);
        lemma_b32_decode_encode(tail);
        let cs = b32_chars_of_acc(b32_acc5(head));
        assert(b32_encode(s) == cs + b32_encode(tail));
        lemma_decode_append(cs, b32_encode(tail));
        assert(cs.take(8) =~= cs);
        assert(cs.skip(8) =~= Seq::<u8>::empty());
        assert(b32_decode(Seq::<u8>::empty()) =~= Seq::<u8>::empty());
        assert(b32_decode(cs) =~= b32_bytes_of_acc(b32_acc8(cs)));
        assert(b32_decode(b32_encode(s)) =~= s);
        assert(forall|i: int|
            0 <= i < b32_encode(s).len() ==> is_b32(#[trigger] b32_encode(s)[i])) by {
            assert(forall|i: int| 0 <= i < 8 ==> b32_encode(s)[i] == cs[i]);
            assert(forall|i: int|
                8 <= i < b32_encode(s).len() ==> b32_encode(s)[i] == b32_encode(tail)[i - 8]);
        }
    }
}

/// Encoding the bytes named by a valid base32 text gives the text back.
pub proof fn lemma_b32_encode_decode(s: Seq<u8>)
    requires
        s.len() % 8 == 0,
        forall|i: int| 0 <= i < s.len() ==> is_b32(#[trigger] s[i]),
    ensures
        b32_decode(s).len() % 5 == 0,
        b32_decode(s).len() == 5 * (s.len() / 8),
        b32_encode(b32_decode(s)) == s,
    decreases s.len(),
{
    if s.len() == 0 {
        assert(b32_encode(b32_decode(s)) =~= s);
    } else {
        let head = s.take(8);
        let tail = s.skip(8);
        assert(forall|j: int| 0 <= j < 8 ==> is_b32(#[trigger] head[j]));
        lemma_block_enc_dec(head);
        assert(forall|i: int| 0 <= i < tail.len() ==> is_b32(#[trigger] tail[i]));
        lemma_b32_encode_decode(tail);
        let bs = b32_bytes_of_acc(b32_acc8(head));
        assert(b32_decode(s) == bs + b32_decode(tail));
        lemma_encode_append(bs, b32_decode(tail));
        assert(bs.take(5) =~= bs);
        assert(bs.skip(5) =~= Seq::<u8>::empty());
        assert(b32_encode(Seq::<u8>::empty()) =~= Seq::<u8>::empty());
        assert(b32_encode(bs) =~= b32_chars_of_acc(b32_acc5(bs)));
        assert(b32_encode(b32_decode(s)) =~= s);
    }
}

/// The alphabet character of a five-bit value.
fn b32_char_of(v: u8) -> (c: u8)
    requires
        v < 32,
    ensures
        c == b32_char(v),
{
    if v < 26 {
        ASCII_LOWER_A + v
    } else {
        v + 24
    }
}

/// The low five bits of a word, as a byte.
fn low5(x: u64) -> (v: u8)
    ensures
        v == (x & 31) as u8,
        v < 32,
{
    proof {
        assert(x & 31 < 32) by (bit_vector);
    }
    (x & 31) as u8
}

/// The low eight bits of a word, as a byte.
fn low8(x: u64) -> (v: u8)
    ensures
        v == (x & 255) as u8,
        v as u64 == x & 255,
{
    proof {
        assert(x & 255 < 256) by (bit_vector);
    }
    (x & 255) as u8
}

/// Encode a byte string, whose length is a multiple of five, as
/// lower-case base32 text.
pub fn encode(data: &[u8]) -> (r: Vec<u8>)
    requires
        data@.len() % 5 == 0,
    ensures
        r@ == b32_encode(data@),
{
    let mut r: Vec<u8> = Vec::new();
    let mut i: usize = 0;
    while data.len() - i >= 5
        invariant
            0 <= i <= data@.len(),
            i % 5 == 0,
            data@.len() % 5 == 0,
            r@ == b32_encode(data@.take(i as int)),
        decreases data@.len() - i,
    {
        let a0 = data[i] as u64;
        let a1 = data[i + 1] as u64;
        let a2 = data[i + 2] as u64;
        let a3 = data[i + 3] as u64;
        let a4 = data[i + 4] as u64;
        let acc: u64 = (a0 << 32) | (a1 << 24) | (a2 << 16) | (a3 << 8) | a4;
        r.push(b32_char_of(low5(acc >> 35)));
        r.push(b32_char_of(low5(acc >> 30)));
        r.push(b32_char_of(low5(acc >> 25)));
        r.push(b32_char_of(low5(acc >> 20)));
        r.push(b32_char_of(low5(acc >> 15)));
        r.push(b32_char_of(low5(acc >> 10)));
        r.push(b32_char_of(low5(acc >> 5)));
        r.push(b32_char_of(low5(acc)));
        proof {
            let pre = data@.take(i as int);
            let blk = data@.subrange(i as int, i + 5);
            assert(data@.take(i + 5) =~= pre + blk);
            lemma_encode_append(pre, blk);
            assert(blk.take(5) =~= blk);
            assert(blk.skip(5) =~= Seq::<u8>::empty());
            assert(b32_encode(Seq::<u8>::empty()) =~= Seq::<u8>::empty());
            assert(acc == b32_acc5(blk));
            assert(b32_encode(blk) =~= b32_chars_of_acc(acc));
            assert(r@ =~= b32_encode(data@.take(i + 5)));
        }
        i += 5;
    }
    proof {
        vstd::arithmetic::div_mod::lemma_fundamental_div_mod(data@.len() as int, 5);
        vstd::arithmetic::div_mod::lemma_fundamental_div_mod(i as int, 5);
        assert(i == data@.len());
        assert(data@.take(i as int) =~= data@);
    }
    r
}

/// Whether a byte is a character of the alphabet.
pub fn is_b32_byte(c: u8) -> (r: bool)
    ensures
        r == is_b32(c),
{
    (ASCII_LOWER_A <= c && c <= ASCII_LOWER_Z) || (ASCII_TWO <= c && c <= ASCII_SEVEN)
}

/// Decode lower-case base32 text.
///
/// Returns `Some` exactly when the length is a multiple of eight and
/// every character belongs to the alphabet.
#[verifier::rlimit(100)]
pub fn decode(text: &[u8]) -> (r: Option<Vec<u8>>)
    ensures
        r is Some <==> text@.len() % 8 == 0 && (forall|i: int|
            0 <= i < text@.len() ==> is_b32(#[trigger] text@[i])),
        r is Some ==> r->0@ == b32_decode(text@),
{
    if text.len() % 8 != 0 {
        return None;
    }
    let mut k: usize = 0;
    while k < text.len()
        invariant
            0 <= k <= text@.len(),
            forall|j: int| 0 <= j < k ==> is_b32(#[trigger] text@[j]),
        decreases text@.len() - k,
    {
        if !is_b32_byte(text[k]) {
            return None;
        }
        k += 1;
    }
    let mut r: Vec<u8> = Vec::new();
    let mut i: usize = 0;
    while text.len() - i >= 8
        invariant
            0 <= i <= text@.len(),
            i % 8 == 0,
            text@.len() % 8 == 0,
            forall|j: int| 0 <= j < text@.len() ==> is_b32(#[trigger] text@[j]),
            r@ == b32_decode(text@.take(i as int)),
        decreases text@.len() - i,
    {
        let v0 = b32_val_of(text[i]) as u64;
        let v1 = b32_val_of(text[i + 1]) as u64;
        let v2 = b32_val_of(text[i + 2]) as u64;
        let v3 = b32_val_of(text[i + 3]) as u64;
        let v4 = b32_val_of(text[i + 4]) as u64;
        let v5 = b32_val_of(text[i + 5]) as u64;
        let v6 = b32_val_of(text[i + 6]) as u64;
        let v7 = b32_val_of(text[i + 7]) as u64;
        let acc: u64 = (v0 << 35) | (v1 << 30) | (v2 << 25) | (v3 << 20) | (v4 << 15) | (v5 << 10)
            | (v6 << 5) | v7;
        r.push(low8(acc >> 32));
        r.push(low8(acc >> 24));
        r.push(low8(acc >> 16));
        r.push(low8(acc >> 8));
        r.push(low8(acc));
        proof {
            let pre = text@.take(i as int);
            let blk = text@.subrange(i as int, i + 8);
            assert(text@.take(i + 8) =~= pre + blk);
            lemma_decode_append(pre, blk);
            assert(blk.take(8) =~= blk);
            assert(blk.skip(8) =~= Seq::<u8>::empty());
            assert(b32_decode(Seq::<u8>::empty()) =~= Seq::<u8>::empty());
            assert(acc == b32_acc8(blk));
            assert(b32_decode(blk) =~= b32_bytes_of_acc(acc));
            assert(r@ =~= b32_decode(text@.take(i + 8)));
        }
        i += 8;
    }
    proof {
        vstd::arithmetic::div_mod::lemma_fundamental_div_mod(text@.len() as int, 8);
        vstd::arithmetic::div_mod::lemma_fundamental_div_mod(i as int, 8);
        assert(i == text@.len());
        assert(text@.take(i as int) =~= text@);
    }
    Some(r)
}

/// The five-bit value of a valid alphabet character.
fn b32_val_of(c: u8) -> (v: u8)
    requires
        is_b32(c),
    ensures
        v == b32_val(c),
        v < 32,
{
    if c >= ASCII_LOWER_A {
        c - ASCII_LOWER_A
    } else {
        c - 24
    }
}

} // verus!
