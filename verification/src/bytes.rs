use vstd::prelude::*;

verus! {

/// The ASCII digit `0`.
pub const ASCII_ZERO: u8 = 48;

/// The ASCII digit `9`.
pub const ASCII_NINE: u8 = 57;

/// The ASCII letter `a`.
pub const ASCII_LOWER_A: u8 = 97;

/// The ASCII letter `f`.
pub const ASCII_LOWER_F: u8 = 102;

/// The ASCII slash `/`.
pub const ASCII_SLASH: u8 = 47;

/// The ASCII dot `.`.
pub const ASCII_DOT: u8 = 46;

/// The ASCII colon `:`.
pub const ASCII_COLON: u8 = 58;

/// The ASCII dash `-`.
pub const ASCII_DASH: u8 = 45;

// ---------------------------------------------------------------------------
// Byte-sequence helpers shared by the address model and the wire formats.
// ---------------------------------------------------------------------------

/// Exact byte-for-byte comparison of two slices.
pub fn bytes_equal(a: &[u8], b: &[u8]) -> (r: bool)
    ensures
        r == (a@ == b@),
{
    if a.len() != b.len() {
        assert(a@ != b@) by {
            assert(a@.len() != b@.len());
        }
        return false;
    }
    let mut i: usize = 0;
    while i < a.len()
        invariant
            0 <= i <= a@.len(),
            a@.len() == b@.len(),
            forall|j: int| 0 <= j < i ==> a@[j] == b@[j],
        decreases a@.len() - i,
    {
        if a[i] != b[i] {
            return false;
        }
        i += 1;
    }
    proof {
        assert(a@ =~= b@);
    }
    true
}

/// The characters of an ASCII byte string, one per byte.
pub open spec fn chars_of(s: Seq<u8>) -> Seq<char> {
    s.map(|i: int, b: u8| b as char)
}

/// Copy the bytes of `src` between `from` and `to`.
pub fn copy_range(src: &[u8], from: usize, to: usize) -> (r: Vec<u8>)
    requires
        from <= to <= src@.len(),
    ensures
        r@ == src@.subrange(from as int, to as int),
{
    let mut r: Vec<u8> = Vec::new();
    let mut i: usize = from;
    while i < to
        invariant
            from <= i <= to <= src@.len(),
            r@ == src@.subrange(from as int, i as int),
        decreases to - i,
    {
        r.push(src[i]);
        proof {
            assert(src@.subrange(from as int, i + 1) =~= src@.subrange(from as int, i as int).push(
                src@[i as int],
            ));
        }
        i += 1;
    }
    r
}

// ---------------------------------------------------------------------------
// Canonical decimal numerals.
// ---------------------------------------------------------------------------

/// Whether `c` is an ASCII decimal digit.
pub open spec fn is_digit(c: u8) -> bool {
    ASCII_ZERO <= c && c <= ASCII_NINE
}

/// The integer named by a digit string, most significant digit first.
pub open spec fn dec_val(s: Seq<u8>) -> int
    decreases s.len(),
{
    if s.len() == 0 {
        0
    } else {
        10 * dec_val(s.drop_last()) + (s.last() - ASCII_ZERO)
    }
}

/// A canonical decimal numeral: at least one digit, no leading zero.
pub open spec fn is_canon_dec(s: Seq<u8>) -> bool {
    &&& s.len() >= 1
    &&& forall|i: int| 0 <= i < s.len() ==> is_digit(#[trigger] s[i])
    &&& (s.len() > 1 ==> s[0] != ASCII_ZERO)
}

/// The canonical decimal numeral of a non-negative integer.
pub open spec fn dec_seq(n: int) -> Seq<u8>
    decreases n,
{
    if n < 10 {
        seq![(n + ASCII_ZERO) as u8]
    } else {
        dec_seq(n / 10).push((n % 10 + ASCII_ZERO) as u8)
    }
}

/// Extending a digit string can only increase its value.
proof fn lemma_dec_val_prefix(s: Seq<u8>, i: int)
    requires
        0 <= i <= s.len(),
        forall|j: int| 0 <= j < s.len() ==> is_digit(#[trigger] s[j]),
    ensures
        dec_val(s.take(i)) <= dec_val(s),
        dec_val(s) >= 0,
    decreases s.len() - i,
{
    if i == s.len() {
        assert(s.take(i) =~= s);
        lemma_dec_val_nonneg(s);
    } else {
        lemma_dec_val_prefix(s, i + 1);
        assert(s.take(i + 1).drop_last() =~= s.take(i));
        assert(dec_val(s.take(i + 1)) == 10 * dec_val(s.take(i)) + (s.take(i + 1).last() - ASCII_ZERO));
        lemma_dec_val_nonneg(s.take(i));
    }
}

/// A digit string names a non-negative integer.
pub proof fn lemma_dec_val_nonneg(s: Seq<u8>)
    requires
        forall|j: int| 0 <= j < s.len() ==> is_digit(#[trigger] s[j]),
    ensures
        dec_val(s) >= 0,
    decreases s.len(),
{
    if s.len() > 0 {
        assert(forall|j: int| 0 <= j < s.drop_last().len() ==> is_digit(#[trigger] s.drop_last()[j]));
        lemma_dec_val_nonneg(s.drop_last());
    }
}

/// Parse a canonical decimal numeral that fits in sixteen bits.
///
/// Returns `Some` exactly on canonical numerals (no empty string, no
/// leading zero, no stray characters) whose value is at most 65535.
pub fn parse_dec_u16(s: &[u8]) -> (r: Option<u16>)
    ensures
        r is Some <==> is_canon_dec(s@) && dec_val(s@) <= 65535,
        r is Some ==> r->0 == dec_val(s@),
{
    if s.len() == 0 {
        return None;
    }
    if s.len() > 1 && s[0] == ASCII_ZERO {
        return None;
    }
    let mut acc: u32 = 0;
    let mut i: usize = 0;
    while i < s.len()
        invariant
            0 <= i <= s@.len(),
            s@.len() >= 1,
            s@.len() > 1 ==> s@[0] != ASCII_ZERO,
            forall|j: int| 0 <= j < i ==> is_digit(#[trigger] s@[j]),
            acc == dec_val(s@.take(i as int)),
            acc <= 65535,
        decreases s@.len() - i,
    {
        let c = s[i];
        if c < ASCII_ZERO || c > ASCII_NINE {
            return None;
        }
        let next: u32 = acc * 10 + (c - ASCII_ZERO) as u32;
        proof {
            assert(s@.take(i + 1).drop_last() =~= s@.take(i as int));
            assert(s@.take(i + 1).last() == s@[i as int]);
        }
        if next > 65535 {
            proof {
                if is_canon_dec(s@) {
                    lemma_dec_val_prefix(s@, i + 1);
                }
            }
            return None;
        }
        acc = next;
        i += 1;
    }
    proof {
        assert(s@.take(i as int) =~= s@);
    }
    Some(acc as u16)
}

/// Render a sixteen-bit integer as its canonical decimal numeral.
pub fn render_dec_u16(n: u16) -> (s: Vec<u8>)
    ensures
        s@ == dec_seq(n as int),
    decreases n,
{
    if n < 10 {
        let mut s: Vec<u8> = Vec::new();
        s.push(n as u8 + ASCII_ZERO);
        proof {
            assert(s@ =~= dec_seq(n as int));
        }
        s
    } else {
        let mut s = render_dec_u16(n / 10);
        s.push((n % 10) as u8 + ASCII_ZERO);
        proof {
            assert(s@ =~= dec_seq(n as int));
        }
        s
    }
}

/// Rendering a number and reading the numeral back is the identity, and
/// what is rendered is canonical.
pub proof fn lemma_dec_round_trip(n: int)
    requires
        0 <= n,
    ensures
        dec_val(dec_seq(n)) == n,
        is_canon_dec(dec_seq(n)),
        n >= 1 ==> dec_seq(n)[0] != ASCII_ZERO,
    decreases n,
{
    if n < 10 {
        assert(dec_seq(n).drop_last() =~= Seq::<u8>::empty());
        assert(dec_seq(n).last() == (n + ASCII_ZERO) as u8);
        assert(dec_val(Seq::<u8>::empty()) == 0);
        assert(dec_val(dec_seq(n)) == 10 * dec_val(dec_seq(n).drop_last()) + (dec_seq(n).last()
            - ASCII_ZERO));
    } else {
        lemma_dec_round_trip(n / 10);
        vstd::arithmetic::div_mod::lemma_fundamental_div_mod(n, 10);
        assert(0 <= n % 10 < 10);
        assert(dec_val(dec_seq(n)) == 10 * dec_val(dec_seq(n).drop_last()) + (dec_seq(n).last()
            - ASCII_ZERO));
        assert(dec_seq(n).drop_last() =~= dec_seq(n / 10));
        assert(dec_seq(n).last() == (n % 10 + ASCII_ZERO) as u8);
        assert(dec_seq(n / 10).len() >= 1);
        assert(dec_seq(n)[0] == dec_seq(n / 10)[0]);
        assert(forall|i: int|
            0 <= i < dec_seq(n).len() ==> is_digit(#[trigger] dec_seq(n)[i])) by {
            assert(forall|i: int|
                0 <= i < dec_seq(n / 10).len() ==> is_digit(#[trigger] dec_seq(n / 10)[i]));
            assert(dec_seq(n).len() == dec_seq(n / 10).len() + 1);
            assert(forall|i: int|
                0 <= i < dec_seq(n / 10).len() ==> dec_seq(n)[i] == dec_seq(n / 10)[i]);
            assert(is_digit(dec_seq(n)[dec_seq(n).len() - 1]));
        }
    }
}

// ---------------------------------------------------------------------------
// Canonical lower-case hexadecimal numerals.
// ---------------------------------------------------------------------------

/// Whether `c` is a lower-case hexadecimal digit.
pub open spec fn is_hexn_char(c: u8) -> bool {
    is_digit(c) || (ASCII_LOWER_A <= c && c <= ASCII_LOWER_F)
}

/// The value of a lower-case hexadecimal digit.
pub open spec fn hexn_char_val(c: u8) -> int {
    if c >= ASCII_LOWER_A {
        c - ASCII_LOWER_A + 10
    } else {
        c - ASCII_ZERO
    }
}

/// The integer named by a hexadecimal string, most significant digit
/// first.
pub open spec fn hexn_val(s: Seq<u8>) -> int
    decreases s.len(),
{
    if s.len() == 0 {
        0
    } else {
        16 * hexn_val(s.drop_last()) + hexn_char_val(s.last())
    }
}

/// A canonical hexadecimal numeral: at least one digit, lower case, no
/// leading zero.
pub open spec fn is_canon_hexn(s: Seq<u8>) -> bool {
    &&& s.len() >= 1
    &&& forall|i: int| 0 <= i < s.len() ==> is_hexn_char(#[trigger] s[i])
    &&& (s.len() > 1 ==> s[0] != ASCII_ZERO)
}

/// The canonical hexadecimal numeral of a non-negative integer.
pub open spec fn hexn_seq(n: int) -> Seq<u8>
    decreases n,
{
    if n < 16 {
        seq![hex_digit(n as u8)]
    } else {
        hexn_seq(n / 16).push(hex_digit((n % 16) as u8))
    }
}

/// Extending a hexadecimal string can only increase its value.
proof fn lemma_hexn_val_prefix(s: Seq<u8>, i: int)
    requires
        0 <= i <= s.len(),
        forall|j: int| 0 <= j < s.len() ==> is_hexn_char(#[trigger] s[j]),
    ensures
        hexn_val(s.take(i)) <= hexn_val(s),
        hexn_val(s) >= 0,
    decreases s.len() - i,
{
    if i == s.len() {
        assert(s.take(i) =~= s);
        lemma_hexn_val_nonneg(s);
    } else {
        lemma_hexn_val_prefix(s, i + 1);
        assert(s.take(i + 1).drop_last() =~= s.take(i));
        assert(hexn_val(s.take(i + 1)) == 16 * hexn_val(s.take(i)) + hexn_char_val(
            s.take(i + 1).last(),
        ));
        lemma_hexn_val_nonneg(s.take(i));
    }
}

/// A hexadecimal string names a non-negative integer.
pub proof fn lemma_hexn_val_nonneg(s: Seq<u8>)
    requires
        forall|j: int| 0 <= j < s.len() ==> is_hexn_char(#[trigger] s[j]),
    ensures
        hexn_val(s) >= 0,
    decreases s.len(),
{
    if s.len() > 0 {
        assert(forall|j: int|
            0 <= j < s.drop_last().len() ==> is_hexn_char(#[trigger] s.drop_last()[j]));
        lemma_hexn_val_nonneg(s.drop_last());
    }
}

/// Parse a canonical lower-case hexadecimal numeral that fits in
/// sixteen bits.
pub fn parse_hexn_u16(s: &[u8]) -> (r: Option<u16>)
    ensures
        r is Some <==> is_canon_hexn(s@) && hexn_val(s@) <= 65535,
        r is Some ==> r->0 == hexn_val(s@),
{
    if s.len() == 0 {
        return None;
    }
    if s.len() > 1 && s[0] == ASCII_ZERO {
        return None;
    }
    let mut acc: u32 = 0;
    let mut i: usize = 0;
    while i < s.len()
        invariant
            0 <= i <= s@.len(),
            s@.len() >= 1,
            s@.len() > 1 ==> s@[0] != ASCII_ZERO,
            forall|j: int| 0 <= j < i ==> is_hexn_char(#[trigger] s@[j]),
            acc == hexn_val(s@.take(i as int)),
            acc <= 65535,
        decreases s@.len() - i,
    {
        let c = s[i];
        let v: u32;
        if c >= ASCII_ZERO && c <= ASCII_NINE {
            v = (c - ASCII_ZERO) as u32;
        } else if c >= ASCII_LOWER_A && c <= ASCII_LOWER_F {
            v = (c - ASCII_LOWER_A) as u32 + 10;
        } else {
            return None;
        }
        let next: u32 = acc * 16 + v;
        proof {
            assert(s@.take(i + 1).drop_last() =~= s@.take(i as int));
            assert(s@.take(i + 1).last() == s@[i as int]);
        }
        if next > 65535 {
            proof {
                if is_canon_hexn(s@) {
                    lemma_hexn_val_prefix(s@, i + 1);
                }
            }
            return None;
        }
        acc = next;
        i += 1;
    }
    proof {
        assert(s@.take(i as int) =~= s@);
    }
    Some(acc as u16)
}

/// Render a sixteen-bit integer as its canonical lower-case
/// hexadecimal numeral.
pub fn render_hexn_u16(n: u16) -> (s: Vec<u8>)
    ensures
        s@ == hexn_seq(n as int),
    decreases n,
{
    if n < 16 {
        let mut s: Vec<u8> = Vec::new();
        if n < 10 {
            s.push(n as u8 + ASCII_ZERO);
        } else {
            s.push(n as u8 - 10 + ASCII_LOWER_A);
        }
        proof {
            assert(s@ =~= hexn_seq(n as int));
        }
        s
    } else {
        let mut s = render_hexn_u16(n / 16);
        let d = (n % 16) as u8;
        if d < 10 {
            s.push(d + ASCII_ZERO);
        } else {
            s.push(d - 10 + ASCII_LOWER_A);
        }
        proof {
            assert(s@ =~= hexn_seq(n as int));
        }
        s
    }
}

/// A digit string that does not start with zero names at least one.
proof fn lemma_dec_val_pos(s: Seq<u8>)
    requires
        s.len() >= 1,
        forall|j: int| 0 <= j < s.len() ==> is_digit(#[trigger] s[j]),
        s[0] != ASCII_ZERO,
    ensures
        dec_val(s) >= 1,
    decreases s.len(),
{
    assert(is_digit(s.last()));
    if s.len() == 1 {
        assert(s.drop_last() =~= Seq::<u8>::empty());
        assert(dec_val(Seq::<u8>::empty()) == 0);
        assert(s.last() == s[0]);
    } else {
        let sp = s.drop_last();
        assert(forall|j: int| 0 <= j < sp.len() ==> is_digit(#[trigger] sp[j]));
        assert(sp[0] == s[0]);
        lemma_dec_val_pos(sp);
        assert(dec_val(s) == 10 * dec_val(sp) + (s.last() - ASCII_ZERO));
    }
}

/// A canonical decimal numeral is the rendering of its value.
pub proof fn lemma_dec_canon(s: Seq<u8>)
    requires
        is_canon_dec(s),
    ensures
        dec_seq(dec_val(s)) == s,
    decreases s.len(),
{
    lemma_dec_val_nonneg(s);
    if s.len() == 1 {
        assert(s.drop_last() =~= Seq::<u8>::empty());
        assert(dec_val(Seq::<u8>::empty()) == 0);
        assert(dec_val(s) == s[0] - ASCII_ZERO);
        assert(dec_seq(dec_val(s)) =~= s);
    } else {
        let sp = s.drop_last();
        assert(forall|j: int| 0 <= j < sp.len() ==> is_digit(#[trigger] sp[j]));
        assert(sp[0] == s[0]);
        assert(is_canon_dec(sp));
        lemma_dec_val_pos(sp);
        lemma_dec_canon(sp);
        let n = dec_val(s);
        assert(n == 10 * dec_val(sp) + (s.last() - ASCII_ZERO));
        vstd::arithmetic::div_mod::lemma_fundamental_div_mod_converse(
            n,
            10,
            dec_val(sp),
            s.last() - ASCII_ZERO,
        );
        assert(n >= 10);
        assert(dec_seq(n) == dec_seq(n / 10).push((n % 10 + ASCII_ZERO) as u8));
        assert(dec_seq(n) =~= s);
    }
}

/// A hexadecimal string that does not start with zero names at least
/// one.
proof fn lemma_hexn_val_pos(s: Seq<u8>)
    requires
        s.len() >= 1,
        forall|j: int| 0 <= j < s.len() ==> is_hexn_char(#[trigger] s[j]),
        s[0] != ASCII_ZERO,
    ensures
        hexn_val(s) >= 1,
    decreases s.len(),
{
    assert(is_hexn_char(s.last()));
    if s.len() == 1 {
        assert(s.drop_last() =~= Seq::<u8>::empty());
        assert(hexn_val(Seq::<u8>::empty()) == 0);
        assert(s.last() == s[0]);
    } else {
        let sp = s.drop_last();
        assert(forall|j: int| 0 <= j < sp.len() ==> is_hexn_char(#[trigger] sp[j]));
        assert(sp[0] == s[0]);
        lemma_hexn_val_pos(sp);
        assert(hexn_val(s) == 16 * hexn_val(sp) + hexn_char_val(s.last()));
    }
}

/// A canonical hexadecimal numeral is the rendering of its value.
pub proof fn lemma_hexn_canon(s: Seq<u8>)
    requires
        is_canon_hexn(s),
    ensures
        hexn_seq(hexn_val(s)) == s,
    decreases s.len(),
{
    lemma_hexn_val_nonneg(s);
    if s.len() == 1 {
        assert(s.drop_last() =~= Seq::<u8>::empty());
        assert(hexn_val(Seq::<u8>::empty()) == 0);
        assert(hexn_val(s) == hexn_char_val(s[0]));
        assert(hex_digit(hexn_char_val(s[0]) as u8) == s[0]);
        assert(hexn_seq(hexn_val(s)) =~= s);
    } else {
        let sp = s.drop_last();
        assert(forall|j: int| 0 <= j < sp.len() ==> is_hexn_char(#[trigger] sp[j]));
        assert(sp[0] == s[0]);
        assert(is_canon_hexn(sp));
        lemma_hexn_val_pos(sp);
        lemma_hexn_canon(sp);
        let n = hexn_val(s);
        assert(n == 16 * hexn_val(sp) + hexn_char_val(s.last()));
        vstd::arithmetic::div_mod::lemma_fundamental_div_mod_converse(
            n,
            16,
            hexn_val(sp),
            hexn_char_val(s.last()),
        );
        assert(n >= 16);
        assert(hexn_seq(n) == hexn_seq(n / 16).push(hex_digit((n % 16) as u8)));
        assert(hex_digit(hexn_char_val(s.last()) as u8) == s.last());
        assert(hexn_seq(n) =~= s);
    }
}

/// Rendering a number and reading the hexadecimal numeral back is the
/// identity, and what is rendered is canonical.
pub proof fn lemma_hexn_round_trip(n: int)
    requires
        0 <= n,
    ensures
        hexn_val(hexn_seq(n)) == n,
        is_canon_hexn(hexn_seq(n)),
        n >= 1 ==> hexn_seq(n)[0] != ASCII_ZERO,
    decreases n,
{
    if n < 16 {
        assert(hexn_seq(n).drop_last() =~= Seq::<u8>::empty());
        assert(hexn_seq(n).last() == hex_digit(n as u8));
        assert(hexn_val(Seq::<u8>::empty()) == 0);
        assert(hexn_val(hexn_seq(n)) == 16 * hexn_val(hexn_seq(n).drop_last()) + hexn_char_val(
            hexn_seq(n).last(),
        ));
    } else {
        lemma_hexn_round_trip(n / 16);
        vstd::arithmetic::div_mod::lemma_fundamental_div_mod(n, 16);
        assert(0 <= n % 16 < 16);
        assert(hexn_val(hexn_seq(n)) == 16 * hexn_val(hexn_seq(n).drop_last()) + hexn_char_val(
            hexn_seq(n).last(),
        ));
        assert(hexn_seq(n).drop_last() =~= hexn_seq(n / 16));
        assert(hexn_seq(n).last() == hex_digit((n % 16) as u8));
        assert(hexn_seq(n / 16).len() >= 1);
        assert(hexn_seq(n)[0] == hexn_seq(n / 16)[0]);
        assert(forall|i: int|
            0 <= i < hexn_seq(n).len() ==> is_hexn_char(#[trigger] hexn_seq(n)[i])) by {
            assert(forall|i: int|
                0 <= i < hexn_seq(n / 16).len() ==> is_hexn_char(#[trigger] hexn_seq(n / 16)[i]));
            assert(hexn_seq(n).len() == hexn_seq(n / 16).len() + 1);
            assert(forall|i: int|
                0 <= i < hexn_seq(n / 16).len() ==> hexn_seq(n)[i] == hexn_seq(n / 16)[i]);
            assert(is_hexn_char(hexn_seq(n)[hexn_seq(n).len() - 1]));
        }
    }
}

// ---------------------------------------------------------------------------
// Lower-case hexadecimal.
// ---------------------------------------------------------------------------

/// The lower-case hexadecimal digit of a value below sixteen.
pub open spec fn hex_digit(v: u8) -> u8 {
    if v < 10 {
        (v + ASCII_ZERO) as u8
    } else {
        (v - 10 + ASCII_LOWER_A) as u8
    }
}

/// Lower-case hexadecimal encoding, two digits per byte.
pub open spec fn hex_seq(s: Seq<u8>) -> Seq<u8>
    decreases s.len(),
{
    if s.len() == 0 {
        Seq::empty()
    } else {
        hex_seq(s.drop_last()) + seq![hex_digit(s.last() / 16), hex_digit(s.last() % 16)]
    }
}

/// Encode bytes as lower-case hexadecimal.
pub fn hex_encode(data: &[u8]) -> (r: Vec<u8>)
    ensures
        r@ == hex_seq(data@),
{
    let mut r: Vec<u8> = Vec::new();
    let mut i: usize = 0;
    while i < data.len()
        invariant
            0 <= i <= data@.len(),
            r@ == hex_seq(data@.take(i as int)),
        decreases data@.len() - i,
    {
        let b = data[i];
        let hi = b / 16;
        let lo = b % 16;
        if hi < 10 {
            r.push(hi + ASCII_ZERO);
        } else {
            r.push(hi - 10 + ASCII_LOWER_A);
        }
        if lo < 10 {
            r.push(lo + ASCII_ZERO);
        } else {
            r.push(lo - 10 + ASCII_LOWER_A);
        }
        proof {
            assert(data@.take(i + 1).drop_last() =~= data@.take(i as int));
            assert(data@.take(i + 1).last() == data@[i as int]);
            assert(r@ =~= hex_seq(data@.take(i + 1)));
        }
        i += 1;
    }
    proof {
        assert(data@.take(i as int) =~= data@);
    }
    r
}

} // verus!
