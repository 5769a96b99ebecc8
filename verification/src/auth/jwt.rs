//! Reading the expiry of an access token (a JWT): its payload, the URL-safe
//! Base64 decoder that reads it, and the expiry rule.
use vstd::prelude::*;

use crate::text::{chars_of, copy_range, string_of};
use crate::crypto::utf8_bytes;
use vstd::utf8::{encode_scalar, encode_utf8};

verus! {

// ───────────────────────── the payload ─────────────────────────

/// Number of `'.'` in `s`.
pub open spec fn dot_count(s: Seq<char>) -> nat
    decreases s.len(),
{
    if s.len() == 0 {
        0
    } else {
        dot_count(s.drop_last()) + if s.last() == '.' {
            1nat
        } else {
            0
        }
    }
}

/// Index of the first `'.'` at or after `i` (or the length).
pub open spec fn next_dot(s: Seq<char>, i: int) -> int
    decreases s.len() - i,
{
    if 0 <= i < s.len() && s[i] != '.' {
        next_dot(s, i + 1)
    } else {
        i
    }
}

/// The middle part of a token made of exactly three `.`-separated parts.
pub open spec fn spec_jwt_payload(token: Seq<char>) -> Option<Seq<char>> {
    if dot_count(token) == 2 {
        let a = next_dot(token, 0);
        let b = next_dot(token, a + 1);
        Some(token.subrange(a + 1, b))
    } else {
        None
    }
}

proof fn lemma_next_dot(s: Seq<char>, i: int)
    requires
        0 <= i <= s.len(),
    ensures
        i <= next_dot(s, i) <= s.len(),
        next_dot(s, i) < s.len() ==> s[next_dot(s, i)] == '.',
    decreases s.len() - i,
{
    if i < s.len() && s[i] != '.' {
        lemma_next_dot(s, i + 1);
    }
}

/// The payload part of a JWT, or none where the token has not three parts.
pub fn jwt_payload(token: &str) -> (r: Option<String>)
    ensures
        r matches Some(p) ==> spec_jwt_payload(token@) == Some(p@),
        r is None ==> spec_jwt_payload(token@) is None,
{
    let t = chars_of(token);
    let mut dots: usize = 0;
    let mut i: usize = 0;
    while i < t.len()
        invariant
            i <= t@.len(),
            t@ == token@,
            dots == dot_count(t@.subrange(0, i as int)),
            dots <= i,
        decreases t.len() - i,
    {
        assert(t@.subrange(0, i + 1).drop_last() =~= t@.subrange(0, i as int));
        if t[i] == '.' {
            dots += 1;
        }
        i += 1;
    }
    assert(t@.subrange(0, t@.len() as int) =~= t@);
    if dots != 2 {
        return None;
    }
    let mut a: usize = 0;
    while a < t.len() && t[a] != '.'
        invariant
            a <= t@.len(),
            next_dot(t@, 0) == next_dot(t@, a as int),
        decreases t.len() - a,
    {
        a += 1;
    }
    if a >= t.len() {
        proof {
            assert(dot_count(t@) == 0) by {
                lemma_no_dots(t@);
            }
        }
        return None;
    }
    let mut b: usize = a + 1;
    while b < t.len() && t[b] != '.'
        invariant
            a < b <= t@.len(),
            next_dot(t@, a + 1) == next_dot(t@, b as int),
        decreases t.len() - b,
    {
        b += 1;
    }
    Some(string_of(copy_range(t.as_slice(), a + 1, b).as_slice()))
}

proof fn lemma_no_dots(s: Seq<char>)
    requires
        next_dot(s, 0) >= s.len(),
    ensures
        dot_count(s) == 0,
{
    assert forall|i: int| 0 <= i < s.len() implies s[i] != '.' by {
        lemma_next_dot_skips(s, 0, i);
    }
    lemma_count_zero(s);
}

proof fn lemma_next_dot_skips(s: Seq<char>, i: int, j: int)
    requires
        0 <= i <= j < next_dot(s, i),
    ensures
        s[j] != '.',
    decreases s.len() - i,
{
    if i < j {
        lemma_next_dot_skips(s, i + 1, j);
    }
}

proof fn lemma_count_zero(s: Seq<char>)
    requires
        forall|i: int| 0 <= i < s.len() ==> s[i] != '.',
    ensures
        dot_count(s) == 0,
    decreases s.len(),
{
    if s.len() > 0 {
        lemma_count_zero(s.drop_last());
    }
}

// ───────────────────────── URL-safe Base64 ─────────────────────────

pub open spec fn url_to_standard(b: u8) -> u8 {
    if b == 45 {
        43u8
    } else if b == 95 {
        47u8
    } else {
        b
    }
}

/// The UTF-8 bytes of a URL-safe Base64 text made standard: padded with `=` to
/// a multiple of four, `-` as `+` and `_` as `/`.
pub open spec fn spec_standard_base64(payload: Seq<char>) -> Seq<u8> {
    let bytes = encode_utf8(payload);
    let padded = if bytes.len() % 4 == 2 {
        bytes + seq![61u8, 61u8]
    } else if bytes.len() % 4 == 3 {
        bytes + seq![61u8]
    } else {
        bytes
    };
    padded.map_values(|b: u8| url_to_standard(b))
}

/// The standard Base64 bytes of a URL-safe Base64 text (see
/// `spec_standard_base64`).
pub fn standard_base64(payload: &str) -> (r: Vec<u8>)
    ensures
        r@ == spec_standard_base64(payload@),
{
    let bytes = utf8_bytes(payload);
    let mut padded: Vec<u8> = Vec::new();
    let mut i: usize = 0;
    while i < bytes.len()
        invariant
            i <= bytes@.len(),
            padded@ == bytes@.subrange(0, i as int),
        decreases bytes.len() - i,
    {
        padded.push(bytes[i]);
        i += 1;
        assert(padded@ =~= bytes@.subrange(0, i as int));
    }
    assert(bytes@.subrange(0, bytes@.len() as int) =~= bytes@);
    if bytes.len() % 4 == 2 {
        padded.push(61);
        padded.push(61);
    } else if bytes.len() % 4 == 3 {
        padded.push(61);
    }
    let ghost p = padded@;
    let mut out: Vec<u8> = Vec::new();
    let mut j: usize = 0;
    while j < padded.len()
        invariant
            j <= p.len(),
            p == padded@,
            out@ == p.subrange(0, j as int).map_values(|b: u8| url_to_standard(b)),
        decreases padded.len() - j,
    {
        let b = padded[j];
        out.push(if b == 45 { 43 } else if b == 95 { 47 } else { b });
        j += 1;
        assert(out@ =~= p.subrange(0, j as int).map_values(|b: u8| url_to_standard(b)));
    }
    assert(p.subrange(0, p.len() as int) =~= p);
    assert(p =~= (if bytes@.len() % 4 == 2 {
        bytes@ + seq![61u8, 61u8]
    } else if bytes@.len() % 4 == 3 {
        bytes@ + seq![61u8]
    } else {
        bytes@
    }));
    out
}

/// The value of a standard Base64 digit.
pub open spec fn b64_value(b: u8) -> Option<u32> {
    if 65 <= b && b <= 90 {
        Some((b - 65) as u32)
    } else if 97 <= b && b <= 122 {
        Some((b - 71) as u32)
    } else if 48 <= b && b <= 57 {
        Some((b + 4) as u32)
    } else if b == 43 {
        Some(62u32)
    } else if b == 47 {
        Some(63u32)
    } else {
        None
    }
}

fn b64_value_exec(b: u8) -> (r: Option<u32>)
    ensures
        r == b64_value(b),
{
    if 65 <= b && b <= 90 {
        Some((b - 65) as u32)
    } else if 97 <= b && b <= 122 {
        Some((b - 71) as u32)
    } else if 48 <= b && b <= 57 {
        Some((b + 4) as u32)
    } else if b == 43 {
        Some(62)
    } else if b == 47 {
        Some(63)
    } else {
        None
    }
}

/// The bytes that decoding `input` from `pos` on gives, with `bits` bits of
/// `accum` carried over: characters other than digits are skipped, every 8
/// bits gathered give a byte, and `=` (padding) ends the data; `done` says
/// that it has been reached.
pub open spec fn spec_decode_from(
    input: Seq<u8>,
    pos: int,
    accum: u32,
    bits: u32,
    done: bool,
) -> Seq<u8>
    decreases input.len() - pos,
{
    if done || pos < 0 || pos >= input.len() {
        Seq::empty()
    } else {
        let ch = input[pos];
        if ch == 61 {
            Seq::empty()
        } else {
            match b64_value(ch) {
                None => spec_decode_from(input, pos + 1, accum, bits, false),
                Some(v) => {
                    let acc = (accum << 6u32) | v;
                    let nbits = (bits + 6) as u32;
                    if nbits >= 8 {
                        let rest = (nbits - 8) as u32;
                        seq![((acc >> rest) & 0xFFu32) as u8] + spec_decode_from(
                            input,
                            pos + 1,
                            acc,
                            rest,
                            false,
                        )
                    } else {
                        spec_decode_from(input, pos + 1, acc, nbits, false)
                    }
                },
            }
        }
    }
}

/// Standard Base64 decoding of `input`: the digits up to the first `=`, other
/// characters skipped, a trailing group of fewer than 8 bits dropped.
pub open spec fn spec_b64_decode(input: Seq<u8>) -> Seq<u8> {
    spec_decode_from(input, 0, 0, 0, false)
}

/// The standard Base64 digit of a 6-bit value.
pub open spec fn b64_digit(v: u8) -> u8 {
    if v < 26 {
        (v + 65) as u8
    } else if v < 52 {
        (v + 71) as u8
    } else if v < 62 {
        (v - 4) as u8
    } else if v == 62 {
        43u8
    } else {
        47u8
    }
}

/// The four digits of three bytes.
pub open spec fn b64_group(a: u8, b: u8, c: u8) -> Seq<u8> {
    seq![
        b64_digit(a >> 2u8),
        b64_digit(((a & 3u8) << 4u8) | (b >> 4u8)),
        b64_digit(((b & 15u8) << 2u8) | (c >> 6u8)),
        b64_digit(c & 63u8),
    ]
}

/// Standard Base64 of `d`, padded with `=` to a multiple of four digits.
pub open spec fn spec_b64_encode(d: Seq<u8>) -> Seq<u8>
    decreases d.len(),
{
    if d.len() >= 3 {
        b64_group(d[0], d[1], d[2]) + spec_b64_encode(d.subrange(3, d.len() as int))
    } else if d.len() == 2 {
        seq![
            b64_digit(d[0] >> 2u8),
            b64_digit(((d[0] & 3u8) << 4u8) | (d[1] >> 4u8)),
            b64_digit((d[1] & 15u8) << 2u8),
            61u8,
        ]
    } else if d.len() == 1 {
        seq![b64_digit(d[0] >> 2u8), b64_digit((d[0] & 3u8) << 4u8), 61u8, 61u8]
    } else {
        Seq::empty()
    }
}

proof fn lemma_digit_value(v: u8)
    requires
        v < 64,
    ensures
        b64_value(b64_digit(v)) == Some(v as u32),
        b64_digit(v) != 61,
{
}

proof fn lemma_group_bits(accum: u32, a: u8, b: u8, c: u8)
    ensures
        ({
            let acc1 = (accum << 6u32) | ((a >> 2u8) as u32);
            let acc2 = (acc1 << 6u32) | ((((a & 3u8) << 4u8) | (b >> 4u8)) as u32);
            let acc3 = (acc2 << 6u32) | ((((b & 15u8) << 2u8) | (c >> 6u8)) as u32);
            let acc4 = (acc3 << 6u32) | ((c & 63u8) as u32);
            &&& ((acc2 >> 4u32) & 0xFFu32) as u8 == a
            &&& ((acc3 >> 2u32) & 0xFFu32) as u8 == b
            &&& ((acc4 >> 0u32) & 0xFFu32) as u8 == c
        }),
        a >> 2u8 < 64,
        ((a & 3u8) << 4u8) | (b >> 4u8) < 64,
        ((b & 15u8) << 2u8) | (c >> 6u8) < 64,
        c & 63u8 < 64,
        (a & 3u8) << 4u8 < 64,
        (b & 15u8) << 2u8 < 64,
{
    assert(((((((accum << 6u32) | ((a >> 2u8) as u32)) << 6u32) | ((((a & 3u8) << 4u8) | (b
        >> 4u8)) as u32)) >> 4u32) & 0xFFu32) as u8 == a) by (bit_vector);
    assert(((((((((accum << 6u32) | ((a >> 2u8) as u32)) << 6u32) | ((((a & 3u8) << 4u8) | (b
        >> 4u8)) as u32)) << 6u32) | ((((b & 15u8) << 2u8) | (c >> 6u8)) as u32)) >> 2u32)
        & 0xFFu32) as u8 == b) by (bit_vector);
    assert(((((((((((accum << 6u32) | ((a >> 2u8) as u32)) << 6u32) | ((((a & 3u8) << 4u8) | (b
        >> 4u8)) as u32)) << 6u32) | ((((b & 15u8) << 2u8) | (c >> 6u8)) as u32)) << 6u32) | ((c
        & 63u8) as u32)) >> 0u32) & 0xFFu32) as u8 == c) by (bit_vector);
    assert(a >> 2u8 < 64) by (bit_vector);
    assert(((a & 3u8) << 4u8) | (b >> 4u8) < 64) by (bit_vector);
    assert(((b & 15u8) << 2u8) | (c >> 6u8) < 64) by (bit_vector);
    assert(c & 63u8 < 64) by (bit_vector);
    assert((a & 3u8) << 4u8 < 64) by (bit_vector);
    assert((b & 15u8) << 2u8 < 64) by (bit_vector);
}

/// Decoding one digit `v` in a state with `bits` carried bits.
proof fn lemma_decode_digit(s: Seq<u8>, p: int, accum: u32, bits: u32, v: u8)
    requires
        0 <= p < s.len(),
        v < 64,
        s[p] == b64_digit(v),
        bits < 8,
    ensures
        ({
            let acc = (accum << 6u32) | (v as u32);
            let nbits = (bits + 6) as u32;
            spec_decode_from(s, p, accum, bits, false) == if nbits >= 8 {
                seq![((acc >> ((nbits - 8) as u32)) & 0xFFu32) as u8] + spec_decode_from(
                    s,
                    p + 1,
                    acc,
                    (nbits - 8) as u32,
                    false,
                )
            } else {
                spec_decode_from(s, p + 1, acc, nbits, false)
            }
        }),
{
    lemma_digit_value(v);
}

/// Decoding the four digits of three bytes gives the bytes, with nothing
/// carried over.
proof fn lemma_decode_group(s: Seq<u8>, p: int, accum: u32, a: u8, b: u8, c: u8) -> (acc4: u32)
    requires
        0 <= p,
        p + 4 <= s.len(),
        s.subrange(p, p + 4) == b64_group(a, b, c),
    ensures
        spec_decode_from(s, p, accum, 0, false) == seq![a, b, c] + spec_decode_from(
            s,
            p + 4,
            acc4,
            0,
            false,
        ),
{
    let d0 = a >> 2u8;
    let d1 = ((a & 3u8) << 4u8) | (b >> 4u8);
    let d2 = ((b & 15u8) << 2u8) | (c >> 6u8);
    let d3 = c & 63u8;
    lemma_group_bits(accum, a, b, c);
    let g = s.subrange(p, p + 4);
    assert(s[p] == g[0] && s[p + 1] == g[1] && s[p + 2] == g[2] && s[p + 3] == g[3]);
    let acc1 = (accum << 6u32) | (d0 as u32);
    let acc2 = (acc1 << 6u32) | (d1 as u32);
    let acc3 = (acc2 << 6u32) | (d2 as u32);
    let acc4 = (acc3 << 6u32) | (d3 as u32);
    lemma_decode_digit(s, p, accum, 0, d0);
    lemma_decode_digit(s, p + 1, acc1, 6, d1);
    lemma_decode_digit(s, p + 2, acc2, 4, d2);
    lemma_decode_digit(s, p + 3, acc3, 2, d3);
    let t = spec_decode_from(s, p + 4, acc4, 0, false);
    assert(spec_decode_from(s, p + 2, acc2, 4, false) == seq![b] + (seq![c] + t));
    assert(spec_decode_from(s, p, accum, 0, false) == seq![a] + (seq![b] + (seq![c] + t)));
    assert(seq![a] + (seq![b] + (seq![c] + t)) =~= seq![a, b, c] + t);
    acc4
}

/// Decoding the Base64 of `d`, found at `p` up to the end of `s`, gives `d`.
proof fn lemma_decode_encoded(s: Seq<u8>, p: int, accum: u32, d: Seq<u8>)
    requires
        0 <= p <= s.len(),
        s.subrange(p, s.len() as int) == spec_b64_encode(d),
    ensures
        spec_decode_from(s, p, accum, 0, false) == d,
    decreases d.len(),
{
    let e = s.subrange(p, s.len() as int);
    if d.len() >= 3 {
        let rest = d.subrange(3, d.len() as int);
        assert(e.subrange(0, 4) =~= s.subrange(p, p + 4));
        assert(e.subrange(0, 4) =~= b64_group(d[0], d[1], d[2]));
        assert(e.subrange(4, e.len() as int) =~= s.subrange(p + 4, s.len() as int));
        assert(e.subrange(4, e.len() as int) =~= spec_b64_encode(rest));
        let acc4 = lemma_decode_group(s, p, accum, d[0], d[1], d[2]);
        lemma_decode_encoded(s, p + 4, acc4, rest);
        assert(d =~= seq![d[0], d[1], d[2]] + rest);
    } else if d.len() == 2 {
        let a = d[0];
        let b = d[1];
        lemma_group_bits(accum, a, b, 0u8);
        assert(((b & 15u8) << 2u8) | (0u8 >> 6u8) == (b & 15u8) << 2u8) by (bit_vector);
        assert(e.len() == 4);
        assert(s[p] == e[0] && s[p + 1] == e[1] && s[p + 2] == e[2] && s[p + 3] == e[3]);
        let acc1 = (accum << 6u32) | ((a >> 2u8) as u32);
        let d1 = ((a & 3u8) << 4u8) | (b >> 4u8);
        let acc2 = (acc1 << 6u32) | (d1 as u32);
        let d2 = (b & 15u8) << 2u8;
        let acc3 = (acc2 << 6u32) | (d2 as u32);
        lemma_decode_digit(s, p, accum, 0, a >> 2u8);
        lemma_decode_digit(s, p + 1, acc1, 6, d1);
        lemma_decode_digit(s, p + 2, acc2, 4, d2);
        assert(spec_decode_from(s, p + 3, acc3, 2, false) =~= Seq::<u8>::empty());
        assert(seq![a] + (seq![b] + Seq::<u8>::empty()) =~= d);
    } else if d.len() == 1 {
        let a = d[0];
        lemma_group_bits(accum, a, 0u8, 0u8);
        assert(((a & 3u8) << 4u8) | (0u8 >> 4u8) == (a & 3u8) << 4u8) by (bit_vector);
        assert(e.len() == 4);
        assert(s[p] == e[0] && s[p + 1] == e[1] && s[p + 2] == e[2]);
        let acc1 = (accum << 6u32) | ((a >> 2u8) as u32);
        let d1 = (a & 3u8) << 4u8;
        let acc2 = (acc1 << 6u32) | (d1 as u32);
        lemma_decode_digit(s, p, accum, 0, a >> 2u8);
        lemma_decode_digit(s, p + 1, acc1, 6, d1);
        assert(spec_decode_from(s, p + 2, acc2, 4, false) =~= Seq::<u8>::empty());
        assert(seq![a] + Seq::<u8>::empty() =~= d);
    } else {
        assert(e.len() == 0);
        assert(d =~= Seq::<u8>::empty());
    }
}

/// Decoding gives back what was encoded: the standard, padded Base64 of any
/// bytes decodes to those bytes.
pub proof fn law_base64_round_trip(d: Seq<u8>)
    ensures
        spec_b64_decode(spec_b64_encode(d)) == d,
{
    let e = spec_b64_encode(d);
    assert(e.subrange(0, e.len() as int) =~= e);
    lemma_decode_encoded(e, 0, 0, d);
}

/// The digits of the Base64 of `d` without the `=` padding.
pub open spec fn spec_b64_core(d: Seq<u8>) -> Seq<u8>
    decreases d.len(),
{
    if d.len() >= 3 {
        b64_group(d[0], d[1], d[2]) + spec_b64_core(d.subrange(3, d.len() as int))
    } else if d.len() == 2 {
        seq![
            b64_digit(d[0] >> 2u8),
            b64_digit(((d[0] & 3u8) << 4u8) | (d[1] >> 4u8)),
            b64_digit((d[1] & 15u8) << 2u8),
        ]
    } else if d.len() == 1 {
        seq![b64_digit(d[0] >> 2u8), b64_digit((d[0] & 3u8) << 4u8)]
    } else {
        Seq::empty()
    }
}

/// The `=` that pad the Base64 of `n` bytes.
pub open spec fn b64_padding(n: nat) -> Seq<u8> {
    if n % 3 == 1 {
        seq![61u8, 61u8]
    } else if n % 3 == 2 {
        seq![61u8]
    } else {
        Seq::empty()
    }
}

/// The URL-safe digit for a standard one: `+` as `-`, `/` as `_`.
pub open spec fn standard_to_url(b: u8) -> u8 {
    if b == 43 {
        45u8
    } else if b == 47 {
        95u8
    } else {
        b
    }
}

/// The URL-safe Base64 text of `d` without padding, as a JWT carries it.
pub open spec fn spec_b64url_text(d: Seq<u8>) -> Seq<char> {
    spec_b64_core(d).map_values(|b: u8| standard_to_url(b) as char)
}

/// A byte the URL-safe mapping leaves recoverable: ASCII, not `-` or `_`.
pub open spec fn plain_digit_byte(x: u8) -> bool {
    x < 128 && x != 45 && x != 95 && x != 61
}

proof fn lemma_digit_plain(v: u8)
    requires
        v < 64,
    ensures
        plain_digit_byte(b64_digit(v)),
{
}

proof fn lemma_core(d: Seq<u8>)
    ensures
        spec_b64_encode(d) == spec_b64_core(d) + b64_padding(d.len()),
        spec_b64_core(d).len() % 4 == (if d.len() % 3 == 1 {
            2int
        } else if d.len() % 3 == 2 {
            3int
        } else {
            0int
        }),
        forall|i: int| 0 <= i < spec_b64_core(d).len() ==> plain_digit_byte(#[trigger] spec_b64_core(d)[i]),
    decreases d.len(),
{
    if d.len() >= 3 {
        let rest = d.subrange(3, d.len() as int);
        lemma_core(rest);
        lemma_group_bits(0, d[0], d[1], d[2]);
        let g = b64_group(d[0], d[1], d[2]);
        lemma_digit_plain(d[0] >> 2u8);
        lemma_digit_plain(((d[0] & 3u8) << 4u8) | (d[1] >> 4u8));
        lemma_digit_plain(((d[1] & 15u8) << 2u8) | (d[2] >> 6u8));
        lemma_digit_plain(d[2] & 63u8);
        assert(spec_b64_encode(d) =~= spec_b64_core(d) + b64_padding(d.len()));
        let c = spec_b64_core(d);
        assert forall|i: int| 0 <= i < c.len() implies plain_digit_byte(#[trigger] c[i]) by {
            if i >= 4 {
                assert(c[i] == spec_b64_core(rest)[i - 4]);
            }
        }
    } else if d.len() == 2 {
        lemma_group_bits(0, d[0], d[1], 0u8);
        lemma_digit_plain(d[0] >> 2u8);
        lemma_digit_plain(((d[0] & 3u8) << 4u8) | (d[1] >> 4u8));
        lemma_digit_plain((d[1] & 15u8) << 2u8);
        assert(spec_b64_encode(d) =~= spec_b64_core(d) + b64_padding(d.len()));
    } else if d.len() == 1 {
        lemma_group_bits(0, d[0], 0u8, 0u8);
        lemma_digit_plain(d[0] >> 2u8);
        lemma_digit_plain((d[0] & 3u8) << 4u8);
        assert(spec_b64_encode(d) =~= spec_b64_core(d) + b64_padding(d.len()));
    } else {
        assert(spec_b64_encode(d) =~= spec_b64_core(d) + b64_padding(d.len()));
    }
}

/// UTF-8 leaves ASCII text as its bytes.
proof fn lemma_ascii_utf8(bs: Seq<u8>)
    requires
        forall|i: int| 0 <= i < bs.len() ==> #[trigger] bs[i] < 128,
    ensures
        encode_utf8(bs.map_values(|b: u8| b as char)) == bs,
    decreases bs.len(),
{
    if bs.len() > 0 {
        let cs = bs.map_values(|b: u8| b as char);
        let rest = bs.drop_first();
        assert(cs.drop_first() =~= rest.map_values(|b: u8| b as char));
        lemma_ascii_utf8(rest);
        let b = bs[0];
        assert(b < 128);
        assert((b as u32) & 0x7Fu32 == b as u32) by (bit_vector)
            requires
                b < 128,
        ;
        assert(encode_scalar(cs[0] as u32) =~= seq![b]);
        assert(bs =~= seq![b] + rest);
    }
}

/// Decoding the URL-safe Base64 text of any bytes, as `base64_decode_url` does
/// (padding it and making it standard first), gives those bytes back.
pub proof fn law_base64url_round_trip(d: Seq<u8>)
    ensures
        spec_b64_decode(spec_standard_base64(spec_b64url_text(d))) == d,
{
    lemma_core(d);
    let c = spec_b64_core(d);
    let u = c.map_values(|b: u8| standard_to_url(b));
    assert forall|i: int| 0 <= i < u.len() implies #[trigger] u[i] < 128 by {
        assert(plain_digit_byte(c[i]));
    }
    assert(spec_b64url_text(d) =~= u.map_values(|b: u8| b as char));
    lemma_ascii_utf8(u);
    let bytes = encode_utf8(spec_b64url_text(d));
    assert(bytes == u);
    let padded = u + b64_padding(d.len());
    assert(padded =~= (if u.len() % 4 == 2 {
        u + seq![61u8, 61u8]
    } else if u.len() % 4 == 3 {
        u + seq![61u8]
    } else {
        u
    }));
    assert forall|i: int| 0 <= i < padded.len() implies url_to_standard(#[trigger] padded[i])
        == spec_b64_encode(d)[i] by {
        if i < u.len() {
            assert(plain_digit_byte(c[i]));
        }
    }
    assert(spec_standard_base64(spec_b64url_text(d)) =~= spec_b64_encode(d));
    law_base64_round_trip(d);
}

/// A Base64 decoder over a byte string that hands out the decoded bytes a
/// bounded number at a time. The bits of a digit not yet handed out are kept
/// for the next call, so the bytes of all calls together are the decoding of
/// the whole input, whatever the sizes asked for.
pub struct B64Reader {
    input: Vec<u8>,
    pos: usize,
    accum: u32,
    bits: u32,
    done: bool,
}

impl B64Reader {
    #[verifier::type_invariant]
    spec fn carried_bits_below_a_byte(self) -> bool {
        self.bits < 8
    }

    /// The bytes that the reader has still to hand out.
    pub closed spec fn remaining(self) -> Seq<u8> {
        spec_decode_from(self.input@, self.pos as int, self.accum, self.bits, self.done)
    }

    pub fn new(input: Vec<u8>) -> (r: B64Reader)
        ensures
            r.remaining() == spec_b64_decode(input@),
    {
        B64Reader { input, pos: 0, accum: 0, bits: 0, done: false }
    }

    /// Hands out the next bytes, at most `max` of them, as one `read` into a
    /// buffer of that size: fewer only where the decoded data ends.
    pub fn read_chunk(&mut self, max: usize) -> (out: Vec<u8>)
        ensures
            out@.len() <= max,
            old(self).remaining() == out@ + final(self).remaining(),
            out@.len() < max ==> final(self).remaining().len() == 0,
    {
        proof {
            use_type_invariant(&*self);
        }
        let mut out: Vec<u8> = Vec::new();
        if self.done {
            return out;
        }
        let mut accum: u32 = self.accum;
        let mut bits: u32 = self.bits;
        let ghost whole = spec_decode_from(self.input@, self.pos as int, accum, bits, false);
        while self.pos < self.input.len() && out.len() < max
            invariant
                self.input@ == old(self).input@,
                !self.done,
                bits < 8,
                self.bits < 8,
                whole == old(self).remaining(),
                out@.len() <= max,
                whole == out@ + spec_decode_from(self.input@, self.pos as int, accum, bits, false),
            decreases self.input.len() - self.pos,
        {
            let ch = self.input[self.pos];
            self.pos = self.pos + 1;
            if ch == 61 {
                self.done = true;
                assert(whole =~= out@ + Seq::<u8>::empty());
                self.accum = accum;
                self.bits = bits;
                return out;
            }
            match b64_value_exec(ch) {
                None => {},
                Some(v) => {
                    let acc = (accum << 6u32) | v;
                    let nbits = bits + 6;
                    if nbits >= 8 {
                        let rest = nbits - 8;
                        let ghost tail = spec_decode_from(self.input@, self.pos as int, acc, rest, false);
                        out.push(((acc >> rest) & 0xFF) as u8);
                        assert(seq![((acc >> rest) & 0xFFu32) as u8] + tail =~= seq![
                            ((acc >> rest) & 0xFFu32) as u8,
                        ] + tail);
                        assert(whole =~= out@ + tail);
                        bits = rest;
                    } else {
                        bits = nbits;
                    }
                    accum = acc;
                },
            }
        }
        self.accum = accum;
        self.bits = bits;
        if self.pos >= self.input.len() {
            assert(whole =~= out@ + Seq::<u8>::empty());
        }
        out
    }
}

/// URL-safe Base64 decoding of a JWT part: made standard (see
/// `standard_base64`), then read to the end through a `B64Reader`.
pub fn base64_decode_url(input: &str) -> (r: Option<Vec<u8>>)
    ensures
        r matches Some(d) && d@ == spec_b64_decode(spec_standard_base64(input@)),
{
    let mut reader = B64Reader::new(standard_base64(input));
    let ghost whole = reader.remaining();
    let mut buf: Vec<u8> = Vec::new();
    loop
        invariant
            whole == spec_b64_decode(spec_standard_base64(input@)),
            whole == buf@ + reader.remaining(),
        ensures
            whole == buf@,
        decreases reader.remaining().len(),
    {
        let chunk = reader.read_chunk(64);
        if chunk.len() == 0 {
            assert(whole =~= buf@);
            break;
        }
        let ghost before = buf@;
        let mut i: usize = 0;
        while i < chunk.len()
            invariant
                i <= chunk@.len(),
                buf@ == before + chunk@.subrange(0, i as int),
            decreases chunk.len() - i,
        {
            buf.push(chunk[i]);
            i += 1;
            assert(buf@ =~= before + chunk@.subrange(0, i as int));
        }
        assert(chunk@.subrange(0, chunk@.len() as int) =~= chunk@);
        assert(whole =~= buf@ + reader.remaining());
    }
    Some(buf)
}

// ───────────────────────── expiry ─────────────────────────

/// The `exp` claim of a JSON payload, where it is an unsigned integer.
pub uninterp spec fn json_exp_claim(payload: Seq<u8>) -> Option<u64>;

/// `serde_json::from_slice::<Value>` then `get("exp")` and `as_u64`. Trusted to
/// depend on the bytes alone.
#[verifier::external_body]
fn exp_claim(payload: &[u8]) -> (r: Option<u64>)
    ensures
        r == json_exp_claim(payload@),
{
    serde_json::from_slice::<serde_json::Value>(payload).ok().and_then(
        |v| v.get("exp").and_then(|e| e.as_u64()),
    )
}

/// A token counts as expired 60 seconds before its `exp`, and when its
/// expiry cannot be read.
pub fn expired_at(exp: Option<u64>, now: u64) -> (b: bool)
    requires
        now <= u64::MAX - 60,
    ensures
        b == match exp {
            Some(e) => now + 60 >= e,
            None => true,
        },
{
    match exp {
        Some(e) => now + 60 >= e,
        None => true,
    }
}

/// The `exp` claim of a token: from its payload, URL-safe Base64 decoded and
/// read as JSON; none where the token has not three parts or the claim is not
/// an unsigned integer.
pub open spec fn spec_token_exp(token: Seq<char>) -> Option<u64> {
    match spec_jwt_payload(token) {
        Some(p) => json_exp_claim(spec_b64_decode(spec_standard_base64(p))),
        None => None,
    }
}

/// Whether an access token has expired at `now` (seconds since the Unix
/// epoch), or is within 60 seconds of it. A token whose expiry cannot be read
/// counts as expired.
pub fn is_jwt_expired(access_token: &str, now: u64) -> (b: bool)
    requires
        now <= u64::MAX - 60,
    ensures
        b == match spec_token_exp(access_token@) {
            Some(e) => now + 60 >= e,
            None => true,
        },
{
    let payload = match jwt_payload(access_token) {
        Some(p) => p,
        None => return true,
    };
    let decoded = match base64_decode_url(payload.as_str()) {
        Some(d) => d,
        None => return true,
    };
    expired_at(exp_claim(decoded.as_slice()), now)
}

} // verus!
