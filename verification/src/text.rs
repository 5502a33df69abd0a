//! Byte-level text utilities.
//!
//! Executable text processing in this crate works on UTF-8 bytes; contracts
//! relate results to byte sequences (`spec_bytes`) or, for ASCII data, to
//! character sequences.

use vstd::prelude::*;
use vstd::string::StringSliceAdditionalSpecFns;

verus! {

/// The characters that a sequence of ASCII bytes spells.
pub open spec fn ascii_view(b: Seq<u8>) -> Seq<char> {
    b.map_values(|x: u8| x as char)
}

pub open spec fn all_ascii(b: Seq<u8>) -> bool {
    forall|i: int| 0 <= i < b.len() ==> #[trigger] b[i] < 128
}

/// Byte-wise slice equality.
pub fn bytes_eq(a: &[u8], b: &[u8]) -> (r: bool)
    ensures
        r <==> a@ == b@,
{
    if a.len() != b.len() {
        proof {
            assert(a@ != b@);
        }
        return false;
    }
    let n = a.len();
    let mut i: usize = 0;
    while i < n
        invariant
            n == a@.len() == b@.len(),
            0 <= i <= n,
            forall|j: int| 0 <= j < i ==> a@[j] == b@[j],
        decreases n - i,
    {
        if a[i] != b[i] {
            return false;
        }
        i += 1;
    }
    proof {
        assert(a@ =~= b@);
    }
    true
}

/// String equality, decided on the UTF-8 bytes.
pub fn str_eq(a: &str, b: &str) -> (r: bool)
    ensures
        r <==> a@ == b@,
{
    let r = bytes_eq(a.as_bytes(), b.as_bytes());
    proof {
        if a.spec_bytes() == b.spec_bytes() {
            vstd::utf8::encode_utf8_decode_utf8(a@);
            vstd::utf8::encode_utf8_decode_utf8(b@);
            assert(vstd::utf8::decode_utf8(a.spec_bytes()) == a@);
            assert(a@ == b@);
        }
    }
    r
}

/// Turns ASCII bytes into a `String` spelling exactly those bytes.
///
/// Relies on `String::from_utf8`: bytes below 128 are valid UTF-8 and decode
/// one byte per character, each to the scalar of the same value.
#[verifier::external_body]
pub(crate) fn ascii_string(b: Vec<u8>) -> (r: String)
    requires
        all_ascii(b@),
    ensures
        r@ == ascii_view(b@),
{
    String::from_utf8(b).unwrap()
}

/// Decimal digits of `n`, most significant first.
pub open spec fn spec_dec_digits(n: nat) -> Seq<u8>
    decreases n,
{
    if n < 10 {
        seq![(n + 0x30) as u8]
    } else {
        spec_dec_digits(n / 10).push((n % 10 + 0x30) as u8)
    }
}

pub proof fn lemma_dec_digits_ascii(n: nat)
    ensures
        all_ascii(spec_dec_digits(n)),
        spec_dec_digits(n).len() >= 1,
        forall|i: int|
            0 <= i < spec_dec_digits(n).len() ==> 0x30 <= #[trigger] spec_dec_digits(n)[i] <= 0x39,
    decreases n,
{
    if n >= 10 {
        lemma_dec_digits_ascii(n / 10);
    }
}

/// Writes `n` in decimal ASCII.
pub fn dec_bytes(n: u64) -> (r: Vec<u8>)
    ensures
        r@ == spec_dec_digits(n as nat),
{
    let mut rev: Vec<u8> = Vec::new();
    let mut v: u64 = n;
    while v >= 10
        invariant
            spec_dec_digits(n as nat) =~= spec_dec_digits(v as nat) + rev@.reverse(),
        decreases v,
    {
        let ghost prev = rev@;
        let d: u8 = (v % 10) as u8;
        rev.push(d + 0x30);
        proof {
            assert(rev@.reverse() =~= seq![(d + 0x30) as u8] + prev.reverse());
            assert(spec_dec_digits(v as nat) == spec_dec_digits((v / 10) as nat).push(
                (v % 10 + 0x30) as u8,
            ));
            assert(spec_dec_digits((v / 10) as nat) + rev@.reverse() =~= spec_dec_digits(v as nat)
                + prev.reverse());
        }
        v = v / 10;
    }
    let ghost prev = rev@;
    rev.push((v as u8) + 0x30);
    proof {
        assert(spec_dec_digits(v as nat) =~= seq![(v + 0x30) as u8]);
        assert(rev@.reverse() =~= seq![(v + 0x30) as u8] + prev.reverse());
        assert(rev@.reverse() =~= spec_dec_digits(v as nat) + prev.reverse());
        assert(spec_dec_digits(n as nat) =~= rev@.reverse());
    }
    let mut out: Vec<u8> = Vec::new();
    let mut i: usize = rev.len();
    while i > 0
        invariant
            0 <= i <= rev@.len(),
            out@ =~= rev@.subrange(i as int, rev@.len() as int).reverse(),
        decreases i,
    {
        i -= 1;
        let ghost before = out@;
        out.push(rev[i]);
        proof {
            assert(out@ =~= rev@.subrange(i as int, rev@.len() as int).reverse());
        }
    }
    proof {
        assert(out@ =~= rev@.reverse());
    }
    out
}

/// Lowercase hexadecimal digit for a value below 16.
pub open spec fn hex_digit(v: u8) -> u8 {
    if v < 10 {
        (v + 0x30) as u8
    } else {
        (v + 0x57) as u8
    }
}

/// Lowercase hexadecimal spelling of a byte string, two digits per byte.
pub open spec fn spec_hex_bytes(s: Seq<u8>) -> Seq<u8>
    decreases s.len(),
{
    if s.len() == 0 {
        Seq::empty()
    } else {
        spec_hex_bytes(s.drop_last()) + seq![
            hex_digit(s.last() / 16),
            hex_digit(s.last() % 16),
        ]
    }
}

pub proof fn lemma_hex_bytes_ascii(s: Seq<u8>)
    ensures
        spec_hex_bytes(s).len() == 2 * s.len(),
        all_ascii(spec_hex_bytes(s)),
    decreases s.len(),
{
    if s.len() > 0 {
        lemma_hex_bytes_ascii(s.drop_last());
    }
}

/// Writes a byte string in lowercase hexadecimal.
pub fn hex_bytes(v: &[u8]) -> (r: Vec<u8>)
    ensures
        r@ == spec_hex_bytes(v@),
{
    let mut out: Vec<u8> = Vec::new();
    let mut i: usize = 0;
    while i < v.len()
        invariant
            0 <= i <= v@.len(),
            out@ =~= spec_hex_bytes(v@.subrange(0, i as int)),
        decreases v@.len() - i,
    {
        let b = v[i];
        let hi = b / 16;
        let lo = b % 16;
        out.push(if hi < 10 { hi + 0x30 } else { hi + 0x57 });
        out.push(if lo < 10 { lo + 0x30 } else { lo + 0x57 });
        proof {
            let pre = v@.subrange(0, i as int);
            let cur = v@.subrange(0, i + 1);
            assert(cur.drop_last() =~= pre);
            assert(cur.last() == b);
            assert(out@ =~= spec_hex_bytes(cur));
        }
        i += 1;
    }
    proof {
        assert(v@.subrange(0, v@.len() as int) =~= v@);
    }
    out
}

/// The sixteen bytes of `n`, most significant first.
pub open spec fn spec_be_bytes_128(n: u128) -> Seq<u8> {
    Seq::new(16, |i: int| (n >> (120 - 8 * i)) as u8)
}

pub fn be_bytes_128(n: u128) -> (r: Vec<u8>)
    ensures
        r@ == spec_be_bytes_128(n),
{
    let mut out: Vec<u8> = Vec::new();
    let mut i: usize = 0;
    while i < 16
        invariant
            0 <= i <= 16,
            out@.len() == i,
            forall|j: int| 0 <= j < i ==> out@[j] == (n >> (120 - 8 * j)) as u8,
        decreases 16 - i,
    {
        let sh: u32 = 120 - 8 * (i as u32);
        out.push((n >> sh) as u8);
        i += 1;
    }
    proof {
        assert(out@ =~= spec_be_bytes_128(n));
    }
    out
}

/// The eight bytes of `n`, most significant first.
pub open spec fn spec_be_bytes_64(n: u64) -> Seq<u8> {
    Seq::new(8, |i: int| (n >> (56 - 8 * i)) as u8)
}

pub fn be_bytes_64(n: u64) -> (r: Vec<u8>)
    ensures
        r@ == spec_be_bytes_64(n),
{
    let mut out: Vec<u8> = Vec::new();
    let mut i: usize = 0;
    while i < 8
        invariant
            0 <= i <= 8,
            out@.len() == i,
            forall|j: int| 0 <= j < i ==> out@[j] == (n >> (56 - 8 * j)) as u8,
        decreases 8 - i,
    {
        let sh: u32 = 56 - 8 * (i as u32);
        out.push((n >> sh) as u8);
        i += 1;
    }
    proof {
        assert(out@ =~= spec_be_bytes_64(n));
    }
    out
}

/// `needle` occurs in `hay` starting at position `i`.
pub open spec fn substring_at(hay: Seq<u8>, needle: Seq<u8>, i: int) -> bool {
    &&& 0 <= i
    &&& i + needle.len() <= hay.len()
    &&& hay.subrange(i, i + needle.len()) == needle
}

/// `needle` occurs somewhere in `hay`.
pub open spec fn contains_bytes(hay: Seq<u8>, needle: Seq<u8>) -> bool {
    exists|i: int| substring_at(hay, needle, i)
}

/// Naive substring search.
pub fn find_substring(hay: &[u8], needle: &[u8]) -> (r: bool)
    ensures
        r <==> contains_bytes(hay@, needle@),
{
    let n = needle.len();
    let h = hay.len();
    if n > h {
        proof {
            assert(forall|i: int| !substring_at(hay@, needle@, i));
        }
        return false;
    }
    let mut i: usize = 0;
    while i <= h - n
        invariant
            n <= h,
            n == needle@.len(),
            h == hay@.len(),
            0 <= i <= h - n + 1,
            forall|k: int| 0 <= k < i ==> !substring_at(hay@, needle@, k),
        decreases h - n + 1 - i,
    {
        let mut j: usize = 0;
        let mut matched = true;
        while j < n
            invariant
                n <= h,
                n == needle@.len(),
                h == hay@.len(),
                0 <= i <= h - n,
                0 <= j <= n,
                matched <==> (forall|t: int| 0 <= t < j ==> hay@[i + t] == needle@[t]),
            decreases n - j,
        {
            if hay[i + j] != needle[j] {
                matched = false;
                j = n;
            } else {
                j += 1;
            }
        }
        if matched {
            proof {
                assert(hay@.subrange(i as int, i + needle@.len()) =~= needle@);
                assert(substring_at(hay@, needle@, i as int));
            }
            return true;
        }
        proof {
            if substring_at(hay@, needle@, i as int) {
                assert forall|t: int| 0 <= t < n implies hay@[i + t] == #[trigger] needle@[t] by {
                    assert(hay@.subrange(i as int, i + n)[t] == hay@[i + t]);
                }
            }
        }
        i += 1;
    }
    proof {
        assert(forall|k: int| substring_at(hay@, needle@, k) ==> 0 <= k <= h - n);
    }
    false
}


/// The base64 alphabet character for a 6-bit value.
pub open spec fn b64_char(v: u8) -> u8 {
    if v < 26 {
        (v + 0x41) as u8
    } else if v < 52 {
        (v + 71) as u8
    } else if v < 62 {
        (v - 52 + 0x30) as u8
    } else if v == 62 {
        0x2b
    } else {
        0x2f
    }
}

/// Standard base64 with `=` padding, defined chunk by chunk from the front.
pub open spec fn spec_base64(s: Seq<u8>) -> Seq<u8>
    decreases s.len(),
{
    if s.len() == 0 {
        Seq::empty()
    } else if s.len() == 1 {
        let b0 = s[0];
        seq![b64_char(b0 >> 2), b64_char((b0 & 0x03) << 4), 0x3d, 0x3d]
    } else if s.len() == 2 {
        let b0 = s[0];
        let b1 = s[1];
        seq![
            b64_char(b0 >> 2),
            b64_char(((b0 & 0x03) << 4) | (b1 >> 4)),
            b64_char((b1 & 0x0f) << 2),
            0x3d,
        ]
    } else {
        let b0 = s[0];
        let b1 = s[1];
        let b2 = s[2];
        seq![
            b64_char(b0 >> 2),
            b64_char(((b0 & 0x03) << 4) | (b1 >> 4)),
            b64_char(((b1 & 0x0f) << 2) | (b2 >> 6)),
            b64_char(b2 & 0x3f),
        ] + spec_base64(s.skip(3))
    }
}

fn b64_digit(v: u8) -> (r: u8)
    requires
        v < 64,
    ensures
        r == b64_char(v),
{
    if v < 26 {
        v + 0x41
    } else if v < 52 {
        v + 71
    } else if v < 62 {
        v - 52 + 0x30
    } else if v == 62 {
        0x2b
    } else {
        0x2f
    }
}

/// Base64-encodes a byte string.
pub fn base64_bytes(v: &[u8]) -> (r: Vec<u8>)
    ensures
        r@ == spec_base64(v@),
{
    let mut out: Vec<u8> = Vec::new();
    let mut i: usize = 0;
    proof {
        assert(v@.skip(0) =~= v@);
    }
    while v.len() - i >= 3
        invariant
            0 <= i <= v@.len(),
            spec_base64(v@) =~= out@ + spec_base64(v@.skip(i as int)),
        decreases v@.len() - i,
    {
        let b0 = v[i];
        let b1 = v[i + 1];
        let b2 = v[i + 2];
        proof {
            assert(b0 >> 2 < 64 && ((b0 & 0x03) << 4) | (b1 >> 4) < 64 && ((b1 & 0x0f) << 2) | (
            b2 >> 6) < 64 && b2 & 0x3f < 64) by (bit_vector);
        }
        out.push(b64_digit(b0 >> 2));
        out.push(b64_digit(((b0 & 0x03) << 4) | (b1 >> 4)));
        out.push(b64_digit(((b1 & 0x0f) << 2) | (b2 >> 6)));
        out.push(b64_digit(b2 & 0x3f));
        proof {
            let rest = v@.skip(i as int);
            assert(rest[0] == b0 && rest[1] == b1 && rest[2] == b2);
            assert(rest.skip(3) =~= v@.skip(i + 3));
            assert(spec_base64(v@) =~= out@ + spec_base64(v@.skip(i + 3)));
        }
        i += 3;
    }
    if v.len() - i == 1 {
        let b0 = v[i];
        proof {
            assert(b0 >> 2 < 64 && (b0 & 0x03) << 4 < 64) by (bit_vector);
        }
        out.push(b64_digit(b0 >> 2));
        out.push(b64_digit((b0 & 0x03) << 4));
        out.push(0x3d);
        out.push(0x3d);
        proof {
            let rest = v@.skip(i as int);
            assert(rest[0] == b0 && rest.len() == 1);
            assert(spec_base64(v@) =~= out@);
        }
    } else if v.len() - i == 2 {
        let b0 = v[i];
        let b1 = v[i + 1];
        proof {
            assert(b0 >> 2 < 64 && ((b0 & 0x03) << 4) | (b1 >> 4) < 64 && (b1 & 0x0f) << 2
                < 64) by (bit_vector);
        }
        out.push(b64_digit(b0 >> 2));
        out.push(b64_digit(((b0 & 0x03) << 4) | (b1 >> 4)));
        out.push(b64_digit((b1 & 0x0f) << 2));
        out.push(0x3d);
        proof {
            let rest = v@.skip(i as int);
            assert(rest[0] == b0 && rest[1] == b1 && rest.len() == 2);
            assert(spec_base64(v@) =~= out@);
        }
    } else {
        proof {
            assert(v@.skip(i as int).len() == 0);
            assert(spec_base64(v@) =~= out@);
        }
    }
    out
}

/// Base64 of a string, as the bytes of its UTF-8 form.
///
/// Relies on nothing outside this crate; exposed as a `String` for callers
/// that embed the result in request bodies.
pub fn base64_encode(input: &str) -> (r: String)
    ensures
        r@ == ascii_view(spec_base64(input.spec_bytes())),
{
    let encoded = base64_bytes(input.as_bytes());
    proof {
        lemma_base64_ascii(input.spec_bytes());
    }
    ascii_string(encoded)
}

pub proof fn lemma_base64_ascii(s: Seq<u8>)
    ensures
        all_ascii(spec_base64(s)),
        spec_base64(s).len() == 4 * ((s.len() + 2) / 3),
    decreases s.len(),
{
    if s.len() >= 3 {
        lemma_base64_ascii(s.skip(3));
    }
}


/// Index of the first `:` in `b`, or `b.len()` if there is none.
pub open spec fn prefix_end(b: Seq<u8>) -> int
    decreases b.len(),
{
    if b.len() == 0 {
        0
    } else if b[0] == 0x3a {
        0
    } else {
        1 + prefix_end(b.drop_first())
    }
}

pub proof fn lemma_prefix_end_at(b: Seq<u8>, i: int)
    requires
        0 <= i <= b.len(),
        forall|j: int| 0 <= j < i ==> b[j] != 0x3a,
        i == b.len() || b[i] == 0x3a,
    ensures
        prefix_end(b) == i,
    decreases b.len(),
{
    if b.len() > 0 && i > 0 {
        assert(b[0] != 0x3a);
        let t = b.drop_first();
        assert(forall|j: int| 0 <= j < i - 1 ==> t[j] == b[j + 1] && t[j] != 0x3a);
        lemma_prefix_end_at(t, i - 1);
    }
}

pub open spec fn is_digit(c: u8) -> bool {
    0x30 <= c <= 0x39
}

pub open spec fn all_digits(b: Seq<u8>) -> bool {
    forall|i: int| 0 <= i < b.len() ==> is_digit(#[trigger] b[i])
}

/// The number that a string of decimal digits spells.
pub open spec fn dec_value(b: Seq<u8>) -> nat
    decreases b.len(),
{
    if b.len() == 0 {
        0
    } else {
        (dec_value(b.drop_last()) * 10 + (b.last() - 0x30)) as nat
    }
}

/// Appending digits never shrinks the value.
pub proof fn lemma_dec_value_prefix(b: Seq<u8>, k: int)
    requires
        all_digits(b),
        0 <= k <= b.len(),
    ensures
        dec_value(b.subrange(0, k)) <= dec_value(b),
    decreases b.len() - k,
{
    if k < b.len() {
        let c = b.subrange(0, k + 1);
        assert(c.drop_last() =~= b.subrange(0, k));
        assert(dec_value(b.subrange(0, k)) <= dec_value(c));
        lemma_dec_value_prefix(b, k + 1);
        assert(b.subrange(0, b.len() as int) =~= b);
    } else {
        assert(b.subrange(0, k) =~= b);
    }
}

/// Reads the decimal number before the first `:` of `s` (before its end if
/// it has no `:`), as stored configuration strings spell hours:
/// `"19:00"` gives 19, `"7"` gives 7. `None` when that prefix is empty, has
/// a non-digit, or does not fit in a `u32`.
pub fn parse_hour_prefix(s: &str) -> (r: Option<u32>)
    ensures
        ({
            let p = s.spec_bytes().subrange(0, prefix_end(s.spec_bytes()));
            match r {
                Some(v) => p.len() > 0 && all_digits(p) && dec_value(p) == v as nat,
                None => !(p.len() > 0 && all_digits(p) && dec_value(p) <= u32::MAX),
            }
        }),
{
    let b = s.as_bytes();
    let n = b.len();
    let mut end: usize = 0;
    while end < n && b[end] != 0x3a
        invariant
            0 <= end <= n,
            n == b@.len(),
            forall|j: int| 0 <= j < end ==> b@[j] != 0x3a,
        decreases n - end,
    {
        end += 1;
    }
    proof {
        lemma_prefix_end_at(b@, end as int);
    }
    let ghost p = b@.subrange(0, end as int);
    if end == 0 {
        return None;
    }
    let mut v: u64 = 0;
    let mut i: usize = 0;
    while i < end
        invariant
            0 <= i <= end <= n,
            n == b@.len(),
            b@ == s.spec_bytes(),
            end as int == prefix_end(b@),
            p == b@.subrange(0, end as int),
            all_digits(b@.subrange(0, i as int)),
            v as nat == dec_value(b@.subrange(0, i as int)),
            v <= u32::MAX,
        decreases end - i,
    {
        let c = b[i];
        if c < 0x30 || c > 0x39 {
            proof {
                assert(p[i as int] == b@[i as int]);
                assert(!all_digits(p));
            }
            return None;
        }
        let d = (c - 0x30) as u64;
        let next = v * 10 + d;
        proof {
            let cur = b@.subrange(0, i + 1);
            assert(cur.drop_last() =~= b@.subrange(0, i as int));
            assert(cur.last() == c);
            assert(next as nat == dec_value(cur));
        }
        if next > 0xFFFF_FFFF {
            proof {
                if all_digits(p) {
                    lemma_dec_value_prefix(p, i + 1);
                    assert(p.subrange(0, i + 1) =~= b@.subrange(0, i + 1));
                }
            }
            return None;
        }
        v = next;
        i += 1;
    }
    proof {
        assert(b@.subrange(0, i as int) == p);
    }
    Some(v as u32)
}

} // verus!
