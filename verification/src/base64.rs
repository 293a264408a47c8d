//! Standard base64 (RFC 4648 alphabet, `=` padding) for smart-filter mask
//! PNGs stored inside filter JSON.
use vstd::prelude::*;
use vstd::string::*;
use crate::text::push_char;

verus! {

// ─────────────────────────────── alphabet ───────────────────────────────

/// The alphabet character (as an ASCII byte) of a 6-bit value.
pub open spec fn alphabet(v: int) -> u8
    recommends
        0 <= v < 64,
{
    if v < 26 {
        (65 + v) as u8
    } else if v < 52 {
        (97 + (v - 26)) as u8
    } else if v < 62 {
        (48 + (v - 52)) as u8
    } else if v == 62 {
        43u8
    } else {
        47u8
    }
}

/// The 6-bit value of an alphabet byte, `None` for any other byte.
pub open spec fn sextet_of(b: u8) -> Option<int> {
    if 65 <= b <= 90 {
        Some(b - 65)
    } else if 97 <= b <= 122 {
        Some(b - 97 + 26)
    } else if 48 <= b <= 57 {
        Some(b - 48 + 52)
    } else if b == 43 {
        Some(62)
    } else if b == 47 {
        Some(63)
    } else {
        None
    }
}

pub open spec fn pad() -> u8 {
    61u8
}

// ─────────────────────────────── encoding ───────────────────────────────

/// Byte `k` of a chunk, zero past its end.
pub open spec fn byte_or_zero(c: Seq<u8>, k: int) -> int {
    if k < c.len() {
        c[k] as int
    } else {
        0
    }
}

/// The four 6-bit groups of a chunk of one to three bytes (missing bytes are zero).
pub open spec fn sextet(c: Seq<u8>, i: int) -> int {
    let b0 = byte_or_zero(c, 0);
    let b1 = byte_or_zero(c, 1);
    let b2 = byte_or_zero(c, 2);
    if i == 0 {
        b0 / 4
    } else if i == 1 {
        (b0 % 4) * 16 + b1 / 16
    } else if i == 2 {
        (b1 % 16) * 4 + b2 / 64
    } else {
        b2 % 64
    }
}

/// Four output bytes of a chunk: one character per 6 bits that hold data, then `=`.
pub open spec fn encode_chunk(c: Seq<u8>) -> Seq<u8> {
    Seq::new(4, |i: int| if i <= c.len() { alphabet(sextet(c, i)) } else { pad() })
}

/// The encoding of `d`, chunk by chunk of three bytes.
pub open spec fn encode_bytes(d: Seq<u8>) -> Seq<u8>
    decreases d.len(),
{
    if d.len() == 0 {
        Seq::empty()
    } else if d.len() <= 3 {
        encode_chunk(d)
    } else {
        encode_chunk(d.take(3)) + encode_bytes(d.skip(3))
    }
}

/// The encoding as text.
pub open spec fn encoded(d: Seq<u8>) -> Seq<char> {
    encode_bytes(d).map_values(|b: u8| b as char)
}

// ─────────────────────────────── decoding ───────────────────────────────

/// Decoding state after some characters: `bits` (0, 2, 4 or 6) pending
/// bits with value `pending`.
pub open spec fn step_out(pending: int, bits: int, v: int) -> Option<int> {
    if bits + 6 >= 8 {
        Some((pending * 64 + v) / pow2(bits - 2))
    } else {
        None
    }
}

pub open spec fn step_pending(pending: int, bits: int, v: int) -> int {
    if bits + 6 >= 8 {
        (pending * 64 + v) % pow2(bits - 2)
    } else {
        pending * 64 + v
    }
}

pub open spec fn step_bits(bits: int) -> int {
    if bits + 6 >= 8 {
        bits - 2
    } else {
        bits + 6
    }
}

pub open spec fn pow2(k: int) -> int {
    if k == 0 {
        1
    } else if k == 2 {
        4
    } else if k == 4 {
        16
    } else {
        64
    }
}

/// Decodes `s` from a state: characters up to the first `=` are alphabet
/// values (any other byte fails); every completed 8 bits make one byte.
pub open spec fn decode_from(s: Seq<u8>, pending: int, bits: int) -> Option<Seq<u8>>
    decreases s.len(),
{
    if s.len() == 0 || s[0] == pad() {
        Some(Seq::empty())
    } else {
        match sextet_of(s[0]) {
            None => None,
            Some(v) => {
                match decode_from(s.drop_first(), step_pending(pending, bits, v), step_bits(bits)) {
                    None => None,
                    Some(rest) => match step_out(pending, bits, v) {
                        Some(b) => Some(seq![b as u8] + rest),
                        None => Some(rest),
                    },
                }
            },
        }
    }
}

pub open spec fn decode_bytes(s: Seq<u8>) -> Option<Seq<u8>> {
    decode_from(s, 0, 0)
}

// ─────────────────────────────── exec ───────────────────────────────

fn alphabet_byte(v: u32) -> (b: u8)
    requires
        v < 64,
    ensures
        b == alphabet(v as int),
{
    if v < 26 {
        65 + v as u8
    } else if v < 52 {
        97 + (v - 26) as u8
    } else if v < 62 {
        48 + (v - 52) as u8
    } else if v == 62 {
        43
    } else {
        47
    }
}

fn sextet_value(b: u8) -> (r: Option<u32>)
    ensures
        match sextet_of(b) {
            Some(v) => r == Some(v as u32),
            None => r is None,
        },
{
    if 65 <= b && b <= 90 {
        Some((b - 65) as u32)
    } else if 97 <= b && b <= 122 {
        Some((b - 97 + 26) as u32)
    } else if 48 <= b && b <= 57 {
        Some((b - 48 + 52) as u32)
    } else if b == 43 {
        Some(62)
    } else if b == 47 {
        Some(63)
    } else {
        None
    }
}

proof fn lemma_sextets(b0: u32, b1: u32, b2: u32, n: u32)
    requires
        b0 < 256,
        b1 < 256,
        b2 < 256,
        n == (b0 << 16) | (b1 << 8) | b2,
    ensures
        (n >> 18) & 63 == b0 / 4,
        (n >> 12) & 63 == (b0 % 4) * 16 + b1 / 16,
        (n >> 6) & 63 == (b1 % 16) * 4 + b2 / 64,
        n & 63 == b2 % 64,
{
    assert((n >> 18) & 63 == b0 / 4) by (bit_vector)
        requires
            b0 < 256,
            b1 < 256,
            b2 < 256,
            n == (b0 << 16) | (b1 << 8) | b2,
    ;
    assert((n >> 12) & 63 == (b0 % 4) * 16 + b1 / 16) by (bit_vector)
        requires
            b0 < 256,
            b1 < 256,
            b2 < 256,
            n == (b0 << 16) | (b1 << 8) | b2,
    ;
    assert((n >> 6) & 63 == (b1 % 16) * 4 + b2 / 64) by (bit_vector)
        requires
            b0 < 256,
            b1 < 256,
            b2 < 256,
            n == (b0 << 16) | (b1 << 8) | b2,
    ;
    assert(n & 63 == b2 % 64) by (bit_vector)
        requires
            b0 < 256,
            b1 < 256,
            b2 < 256,
            n == (b0 << 16) | (b1 << 8) | b2,
    ;
}

/// Standard base64 with `=` padding.
pub fn base64_encode(data: &[u8]) -> (r: String)
    ensures
        r@ == encoded(data@),
{
    let mut o = String::new();
    let len = data.len();
    let mut i: usize = 0;
    proof {
        assert(data@.skip(0) =~= data@);
    }
    while i < len
        invariant
            len == data@.len(),
            i <= len,
            i % 3 == 0 || i == len,
            encode_bytes(data@).map_values(|b: u8| b as char) =~= o@ + encode_bytes(
                data@.skip(i as int),
            ).map_values(|b: u8| b as char),
        decreases len - i,
    {
        let rem = len - i;
        let k: usize = if rem < 3 { rem } else { 3 };
        let b0 = data[i] as u32;
        let b1 = if k > 1 { data[i + 1] as u32 } else { 0 };
        let b2 = if k > 2 { data[i + 2] as u32 } else { 0 };
        let n: u32 = (b0 << 16) | (b1 << 8) | b2;
        let ghost chunk = data@.skip(i as int).take(k as int);
        let ghost rest = data@.skip(i as int);
        proof {
            lemma_sextets(b0, b1, b2, n);
            assert(chunk.len() == k);
            assert(byte_or_zero(chunk, 0) == b0);
            assert(byte_or_zero(chunk, 1) == b1);
            assert(byte_or_zero(chunk, 2) == b2);
            if rest.len() <= 3 {
                assert(chunk =~= rest);
                assert(rest.skip(k as int).len() == 0);
                assert(encode_bytes(rest) == encode_chunk(chunk) + encode_bytes(rest.skip(k as int)));
            } else {
                assert(encode_bytes(rest) == encode_chunk(chunk) + encode_bytes(rest.skip(k as int)));
            }
            assert(rest.skip(k as int) =~= data@.skip(i + k));
        }
        let ghost before = o@;
        let s0 = (n >> 18) & 63;
        let s1 = (n >> 12) & 63;
        let s2 = (n >> 6) & 63;
        let s3 = n & 63;
        proof {
            assert(s0 < 64 && s1 < 64 && s2 < 64 && s3 < 64) by (bit_vector)
                requires
                    s0 == (n >> 18) & 63,
                    s1 == (n >> 12) & 63,
                    s2 == (n >> 6) & 63,
                    s3 == n & 63,
            ;
        }
        let c0 = alphabet_byte(s0);
        let c1 = alphabet_byte(s1);
        let c2 = if k >= 2 { alphabet_byte(s2) } else { 61 };
        let c3 = if k >= 3 { alphabet_byte(s3) } else { 61 };
        push_char(&mut o, c0 as char);
        push_char(&mut o, c1 as char);
        push_char(&mut o, c2 as char);
        push_char(&mut o, c3 as char);
        proof {
            let ec = encode_chunk(chunk);
            assert(ec[0] == c0 && ec[1] == c1 && ec[2] == c2 && ec[3] == c3);
            assert(o@ =~= before + ec.map_values(|b: u8| b as char));
        }
        proof {
            assert(encode_bytes(rest) == encode_chunk(chunk) + encode_bytes(data@.skip(i + k)));
            assert((encode_chunk(chunk) + encode_bytes(data@.skip(i + k))).map_values(|b: u8| b as char)
                =~= encode_chunk(chunk).map_values(|b: u8| b as char) + encode_bytes(data@.skip(i + k)).map_values(|b: u8| b as char));
        }
        i = i + k;
    }
    proof {
        assert(data@.skip(len as int).len() == 0);
        assert(encode_bytes(data@.skip(len as int)) =~= Seq::<u8>::empty());
    }
    o
}

/// One decoding step on the exec accumulator: its low `bits` bits are the
/// pending value; after shifting in `v` the low bits hold the new pending
/// value and the byte above them is the output.
proof fn lemma_step(acc: u32, bits: u32, p: u32, v: u32)
    requires
        bits == 0 || bits == 2 || bits == 4 || bits == 6,
        v < 64,
        bits == 0 ==> p == 0,
        bits == 2 ==> p == acc & 3,
        bits == 4 ==> p == acc & 15,
        bits == 6 ==> p == acc & 63,
    ensures
        ({
            let a2 = (acc << 6u32) | v;
            &&& bits == 0 ==> a2 & 63 == p * 64 + v
            &&& bits == 2 ==> (a2 >> 0u32) & 0xff == p * 64 + v
            &&& bits == 4 ==> (a2 >> 2u32) & 0xff == (p * 64 + v) / 4 && a2 & 3 == (p * 64 + v) % 4
            &&& bits == 6 ==> (a2 >> 4u32) & 0xff == (p * 64 + v) / 16 && a2 & 15 == (p * 64 + v) % 16
        }),
{
    let a2 = (acc << 6u32) | v;
    if bits == 0 {
        assert(a2 & 63 == p * 64 + v) by (bit_vector)
            requires
                a2 == (acc << 6u32) | v,
                v < 64,
                p == 0,
        ;
    } else if bits == 2 {
        assert((a2 >> 0u32) & 0xff == p * 64 + v) by (bit_vector)
            requires
                a2 == (acc << 6u32) | v,
                v < 64,
                p == acc & 3,
        ;
    } else if bits == 4 {
        assert((a2 >> 2u32) & 0xff == (p * 64 + v) / 4 && a2 & 3 == (p * 64 + v) % 4) by (bit_vector)
            requires
                a2 == (acc << 6u32) | v,
                v < 64,
                p == acc & 15,
        ;
    } else {
        assert((a2 >> 4u32) & 0xff == (p * 64 + v) / 16 && a2 & 15 == (p * 64 + v) % 16) by (bit_vector)
            requires
                a2 == (acc << 6u32) | v,
                v < 64,
                p == acc & 63,
        ;
    }
}

/// The low `bits` bits of the accumulator.
pub open spec fn low_bits(acc: u32, bits: u32) -> u32 {
    if bits == 0 {
        0
    } else if bits == 2 {
        acc & 3
    } else if bits == 4 {
        acc & 15
    } else {
        acc & 63
    }
}

/// Prepends `o` to a decoding result.
pub open spec fn after(o: Seq<u8>, r: Option<Seq<u8>>) -> Option<Seq<u8>> {
    match r {
        Some(rest) => Some(o + rest),
        None => None,
    }
}

/// Decodes standard base64 up to the first `=`; `None` when another
/// non-alphabet byte comes first.
pub fn base64_decode(s: &str) -> (r: Option<Vec<u8>>)
    ensures
        match decode_bytes(s.spec_bytes()) {
            Some(d) => r is Some && r->0@ == d,
            None => r is None,
        },
{
    let bytes = s.as_bytes();
    let mut o: Vec<u8> = Vec::new();
    let mut acc: u32 = 0;
    let mut bits: u32 = 0;
    let mut i: usize = 0;
    proof {
        assert(bytes@.skip(0) =~= bytes@);
    }
    while i < bytes.len()
        invariant
            bytes@ == s.spec_bytes(),
            i <= bytes.len(),
            bits == 0 || bits == 2 || bits == 4 || bits == 6,
            decode_bytes(bytes@) == after(
                o@,
                decode_from(bytes@.skip(i as int), low_bits(acc, bits) as int, bits as int),
            ),
        decreases bytes.len() - i,
    {
        let b = bytes[i];
        let ghost rest = bytes@.skip(i as int);
        assert(rest[0] == b);
        if b == 61 {
            assert(decode_from(rest, low_bits(acc, bits) as int, bits as int) == Some(Seq::<u8>::empty()));
            assert(o@ + Seq::<u8>::empty() =~= o@);
            return Some(o);
        }
        let v = match sextet_value(b) {
            Some(v) => v,
            None => {
                return None;
            },
        };
        let ghost p = low_bits(acc, bits);
        proof {
            lemma_step(acc, bits, p, v);
            assert(p < 64) by (bit_vector)
                requires
                    p == low_bits(acc, bits),
            ;
            assert(rest.drop_first() =~= bytes@.skip(i + 1));
        }
        let ghost old_o = o@;
        acc = (acc << 6) | v;
        if bits >= 2 {
            bits = bits - 2;
            let w = (acc >> bits) & 0xff;
            assert(w < 256) by (bit_vector)
                requires
                    w == (acc >> bits) & 0xff,
            ;
            let out = w as u8;
            o.push(out);
            proof {
                assert(low_bits(acc, bits) == step_pending(p as int, (bits + 2) as int, v as int));
                assert(out == step_out(p as int, (bits + 2) as int, v as int)->0);
                assert(old_o + (seq![out] + Seq::<u8>::empty()) =~= o@);
            }
        } else {
            bits = 6;
            proof {
                assert(low_bits(acc, bits) == step_pending(p as int, 0, v as int));
            }
        }
        proof {
            let r2 = decode_from(bytes@.skip(i + 1), low_bits(acc, bits) as int, bits as int);
            match r2 {
                Some(x) => {
                    assert(old_o + (o@.subrange(old_o.len() as int, o@.len() as int) + x) =~= o@ + x);
                },
                None => {},
            }
        }
        i = i + 1;
    }
    proof {
        assert(bytes@.skip(i as int).len() == 0);
        assert(o@ + Seq::<u8>::empty() =~= o@);
    }
    Some(o)
}

// ─────────────────────────────── round trip ───────────────────────────────

proof fn lemma_alphabet(v: int)
    requires
        0 <= v < 64,
    ensures
        sextet_of(alphabet(v)) == Some(v),
        alphabet(v) != pad(),
        alphabet(v) < 128,
{
}

proof fn lemma_drop(e: Seq<u8>, k: int)
    requires
        0 <= k < e.len(),
    ensures
        e.skip(k).drop_first() =~= e.skip(k + 1),
        e.skip(k)[0] == e[k],
{
}

/// A chunk of three bytes decodes back to itself and leaves the state empty.
proof fn lemma_full_chunk(c: Seq<u8>, rest: Seq<u8>)
    requires
        c.len() == 3,
    ensures
        decode_from(encode_chunk(c) + rest, 0, 0) == after(c, decode_from(rest, 0, 0)),
{
    let e = encode_chunk(c) + rest;
    let (b0, b1, b2) = (c[0] as int, c[1] as int, c[2] as int);
    let (v0, v1, v2, v3) = (sextet(c, 0), sextet(c, 1), sextet(c, 2), sextet(c, 3));
    lemma_alphabet(v0);
    lemma_alphabet(v1);
    lemma_alphabet(v2);
    lemma_alphabet(v3);
    lemma_drop(e, 0);
    lemma_drop(e, 1);
    lemma_drop(e, 2);
    lemma_drop(e, 3);
    assert(e.skip(0) =~= e);
    assert(e.skip(4) =~= rest);
    assert(v0 * 64 + v1 == b0 * 16 + b1 / 16);
    assert((b1 / 16) * 64 + v2 == b1 * 4 + b2 / 64);
    assert((b2 / 64) * 64 + v3 == b2);
    let x = decode_from(rest, 0, 0);
    assert(decode_from(e.skip(3), b2 / 64, 2) == after(seq![b2 as u8], x));
    assert(decode_from(e.skip(2), b1 / 16, 4) == after(seq![b1 as u8], after(seq![b2 as u8], x)));
    assert(decode_from(e.skip(1), v0, 6) == after(seq![b0 as u8], after(seq![b1 as u8], after(seq![b2 as u8], x))));
    assert(decode_from(e, 0, 0) == decode_from(e.skip(1), v0, 6));
    match x {
        Some(r) => {
            assert(seq![b0 as u8] + (seq![b1 as u8] + (seq![b2 as u8] + r)) =~= c + r);
        },
        None => {},
    }
}

/// A final chunk of one or two bytes (padded with `=`) decodes back to itself.
proof fn lemma_last_chunk(c: Seq<u8>)
    requires
        1 <= c.len() <= 2,
    ensures
        decode_from(encode_chunk(c), 0, 0) == Some(c),
{
    let e = encode_chunk(c);
    let b0 = c[0] as int;
    let b1 = byte_or_zero(c, 1);
    let (v0, v1, v2) = (sextet(c, 0), sextet(c, 1), sextet(c, 2));
    lemma_alphabet(v0);
    lemma_alphabet(v1);
    lemma_alphabet(v2);
    lemma_drop(e, 0);
    lemma_drop(e, 1);
    lemma_drop(e, 2);
    lemma_drop(e, 3);
    assert(e.skip(0) =~= e);
    assert(v0 * 64 + v1 == b0 * 16 + b1 / 16);
    assert((b1 / 16) * 64 + v2 == b1 * 4);
    if c.len() == 1 {
        assert(e[2] == pad());
        assert(decode_from(e.skip(2), b1 / 16, 4) == Some(Seq::<u8>::empty()));
        assert(decode_from(e.skip(1), v0, 6) == after(seq![b0 as u8], Some(Seq::<u8>::empty())));
        assert(seq![b0 as u8] + Seq::<u8>::empty() =~= c);
    } else {
        assert(e[3] == pad());
        assert(decode_from(e.skip(3), 0, 2) == Some(Seq::<u8>::empty()));
        assert(decode_from(e.skip(2), b1 / 16, 4) == after(seq![b1 as u8], Some(Seq::<u8>::empty())));
        assert(decode_from(e.skip(1), v0, 6) == after(seq![b0 as u8], after(seq![b1 as u8], Some(Seq::<u8>::empty()))));
        assert(seq![b0 as u8] + (seq![b1 as u8] + Seq::<u8>::empty()) =~= c);
    }
}

/// Every byte of an encoding is an ASCII alphabet byte or `=`.
proof fn lemma_encode_ascii(d: Seq<u8>)
    ensures
        forall|i: int| 0 <= i < encode_bytes(d).len() ==> #[trigger] encode_bytes(d)[i] < 128,
    decreases d.len(),
{
    if d.len() == 0 {
    } else {
        let c = if d.len() <= 3 { d } else { d.take(3) };
        assert forall|i: int| 0 <= i < 4 implies #[trigger] encode_chunk(c)[i] < 128 by {
            if i <= c.len() {
                lemma_alphabet(sextet(c, i));
            }
        }
        if d.len() > 3 {
            lemma_encode_ascii(d.skip(3));
            let e = encode_bytes(d);
            assert(e == encode_chunk(c) + encode_bytes(d.skip(3)));
            assert forall|i: int| 0 <= i < e.len() implies #[trigger] e[i] < 128 by {
                if i < 4 {
                    assert(e[i] == encode_chunk(c)[i]);
                } else {
                    assert(e[i] == encode_bytes(d.skip(3))[i - 4]);
                }
            }
        }
    }
}

proof fn lemma_round_trip_bytes(d: Seq<u8>)
    ensures
        decode_bytes(encode_bytes(d)) == Some(d),
    decreases d.len(),
{
    if d.len() == 0 {
    } else if d.len() == 3 {
        lemma_full_chunk(d, Seq::empty());
        assert(encode_chunk(d) + Seq::<u8>::empty() =~= encode_chunk(d));
        assert(d + Seq::<u8>::empty() =~= d);
    } else if d.len() < 3 {
        lemma_last_chunk(d);
    } else {
        lemma_round_trip_bytes(d.skip(3));
        lemma_full_chunk(d.take(3), encode_bytes(d.skip(3)));
        assert(d.take(3) + d.skip(3) =~= d);
    }
}

/// Decoding an encoding gives back the original bytes, for every byte string.
pub proof fn base64_round_trip(d: Seq<u8>)
    ensures
        decode_bytes(vstd::utf8::encode_utf8(encoded(d))) == Some(d),
{
    lemma_encode_ascii(d);
    let t = encoded(d);
    assert(vstd::utf8::is_ascii_chars(t)) by {
        assert forall|i| 0 <= i < t.len() implies '\0' <= #[trigger] t[i] <= '\u{7f}' by {
            assert(encode_bytes(d)[i] < 128);
        }
    }
    vstd::utf8::is_ascii_chars_encode_utf8(t);
    assert(vstd::utf8::encode_utf8(t) =~= encode_bytes(d));
    lemma_round_trip_bytes(d);
}

/// How many `=` end the encoding of `n` bytes.
pub open spec fn padding(n: nat) -> int {
    (3 - n % 3) % 3
}

proof fn lemma_chunk_shape(c: Seq<u8>)
    requires
        1 <= c.len() <= 3,
    ensures
        encode_chunk(c).len() == 4,
        forall|i: int|
            0 <= i < 4 ==> (#[trigger] encode_chunk(c)[i] == pad() <==> i >= 4 - padding(c.len())),
        forall|i: int|
            0 <= i < 4 - padding(c.len()) ==> sextet_of(#[trigger] encode_chunk(c)[i]) is Some,
{
    assert forall|i: int| 0 <= i < 4 implies (#[trigger] encode_chunk(c)[i] == pad() <==> i >= 4
        - padding(c.len())) && (i < 4 - padding(c.len()) ==> sextet_of(encode_chunk(c)[i]) is Some) by {
        if i <= c.len() {
            let v = sextet(c, i);
            assert(0 <= v < 64);
        }
    }
}

proof fn lemma_encoding_shape(d: Seq<u8>)
    ensures
        encode_bytes(d).len() == 4 * ((d.len() + 2) / 3),
        forall|i: int|
            0 <= i < encode_bytes(d).len() ==> (#[trigger] encode_bytes(d)[i] == pad() <==> i
                >= encode_bytes(d).len() - padding(d.len())),
        forall|i: int|
            0 <= i < encode_bytes(d).len() - padding(d.len()) ==> sextet_of(
                #[trigger] encode_bytes(d)[i],
            ) is Some,
    decreases d.len(),
{
    if d.len() == 0 {
    } else if d.len() <= 3 {
        lemma_chunk_shape(d);
    } else {
        let head = d.take(3);
        let rest = d.skip(3);
        lemma_chunk_shape(head);
        lemma_encoding_shape(rest);
        let e = encode_bytes(d);
        assert(e == encode_chunk(head) + encode_bytes(rest));
        assert(padding(d.len()) == padding(rest.len()));
        assert forall|i: int| 0 <= i < e.len() implies (#[trigger] e[i] == pad() <==> i >= e.len()
            - padding(d.len())) && (i < e.len() - padding(d.len()) ==> sextet_of(e[i]) is Some) by {
            if i >= 4 {
                assert(e[i] == encode_bytes(rest)[i - 4]);
            } else {
                assert(e[i] == encode_chunk(head)[i]);
            }
        }
    }
}

/// The encoding of `d` has four characters for every three bytes or part
/// of three, ends in exactly as many `=` as the last group of three lacks
/// bytes, and is made of alphabet characters before them.
pub proof fn encodings_are_padded_alphabet_text(d: Seq<u8>)
    ensures
        encoded(d).len() == 4 * ((d.len() + 2) / 3),
        forall|i: int|
            0 <= i < encoded(d).len() ==> (#[trigger] encoded(d)[i] == '=' <==> i >= encoded(d).len()
                - padding(d.len())),
        forall|i: int|
            0 <= i < encoded(d).len() - padding(d.len()) ==> sextet_of(
                #[trigger] encoded(d)[i] as u8,
            ) is Some,
{
    lemma_encoding_shape(d);
    let e = encode_bytes(d);
    assert forall|i: int| 0 <= i < e.len() implies (#[trigger] encoded(d)[i] == '=' <==> i >= e.len()
        - padding(d.len())) && (i < e.len() - padding(d.len()) ==> sextet_of(encoded(d)[i] as u8) is Some) by {
        assert(encoded(d)[i] == e[i] as char);
        assert((e[i] as char) as u8 == e[i]);
    }
}

/// No `=` among the first `i` bytes, and byte `i` is neither `=` nor an
/// alphabet byte.
pub open spec fn bad_before_pad(s: Seq<u8>, i: int) -> bool {
    &&& 0 <= i < s.len()
    &&& sextet_of(s[i]) is None
    &&& s[i] != pad()
    &&& forall|j: int| 0 <= j < i ==> #[trigger] s[j] != pad()
}

proof fn lemma_decode_fails(s: Seq<u8>, pending: int, bits: int)
    ensures
        decode_from(s, pending, bits) is None <==> exists|i: int| bad_before_pad(s, i),
    decreases s.len(),
{
    if s.len() == 0 {
    } else if s[0] == pad() {
        assert forall|i: int| !bad_before_pad(s, i) by {
            if 0 < i < s.len() && sextet_of(s[i]) is None && s[i] != pad() {
                assert(s[0] == pad());
            }
        }
    } else {
        match sextet_of(s[0]) {
            None => {
                assert(bad_before_pad(s, 0));
            },
            Some(v) => {
                let t = s.drop_first();
                lemma_decode_fails(t, step_pending(pending, bits, v), step_bits(bits));
                if exists|i: int| bad_before_pad(t, i) {
                    let i = choose|i: int| bad_before_pad(t, i);
                    assert forall|j: int| 0 <= j < i + 1 implies #[trigger] s[j] != pad() by {
                        if j > 0 {
                            assert(s[j] == t[j - 1]);
                        }
                    }
                    assert(bad_before_pad(s, i + 1));
                }
                if exists|i: int| bad_before_pad(s, i) {
                    let i = choose|i: int| bad_before_pad(s, i);
                    assert(i != 0);
                    assert forall|j: int| 0 <= j < i - 1 implies #[trigger] t[j] != pad() by {
                        assert(t[j] == s[j + 1]);
                    }
                    assert(bad_before_pad(t, i - 1));
                }
            },
        }
    }
}

/// Decoding fails exactly when some byte before the first `=` is not an
/// alphabet byte.
pub proof fn decoding_fails_on_a_stray_byte(s: Seq<u8>)
    ensures
        decode_bytes(s) is None <==> exists|i: int| bad_before_pad(s, i),
{
    lemma_decode_fails(s, 0, 0);
}

} // verus!
