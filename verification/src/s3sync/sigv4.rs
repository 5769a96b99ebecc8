//! AWS Signature Version 4 for S3-compatible requests: URI encoding, the
//! canonical query, the signing key and the Authorization header.
use vstd::prelude::*;

use crate::crypto::{
    hex_digit_upper, hex_encode, hex_lower, hmac_sha256, hmac_sha256_tag, sha256,
    sha256_digest, utf8_bytes,
};
use crate::text::{chars_of, concat, copy_range, string_of, trim, trim_exec, owned};
use vstd::utf8::encode_utf8;
use vstd::multiset::Multiset;

verus! {

// ───────────────────────── URI encoding ─────────────────────────

/// Bytes left as they are: ASCII letters and digits, `-`, `.`, `_`, `~`, and
/// `/` unless slashes are encoded too.
pub open spec fn is_unreserved(b: u8, encode_slash: bool) -> bool {
    ||| ('A' as u8) <= b && b <= ('Z' as u8)
    ||| ('a' as u8) <= b && b <= ('z' as u8)
    ||| ('0' as u8) <= b && b <= ('9' as u8)
    ||| b == ('-' as u8)
    ||| b == ('.' as u8)
    ||| b == ('_' as u8)
    ||| b == ('~' as u8)
    ||| (!encode_slash && b == ('/' as u8))
}

pub open spec fn encode_byte(b: u8, encode_slash: bool) -> Seq<char> {
    if is_unreserved(b, encode_slash) {
        seq![b as char]
    } else {
        seq!['%', hex_digit_upper(b as int / 16), hex_digit_upper(b as int % 16)]
    }
}

pub open spec fn encode_bytes(bs: Seq<u8>, encode_slash: bool) -> Seq<char>
    decreases bs.len(),
{
    if bs.len() == 0 {
        Seq::empty()
    } else {
        encode_bytes(bs.drop_last(), encode_slash) + encode_byte(bs.last(), encode_slash)
    }
}

/// Percent-encoding of the UTF-8 bytes of `s`: every byte but the unreserved
/// ones becomes `%XX` with uppercase hexadecimal digits.
pub open spec fn spec_uri_encode(s: Seq<char>, encode_slash: bool) -> Seq<char> {
    encode_bytes(encode_utf8(s), encode_slash)
}

/// The value of a hexadecimal digit (either case).
pub open spec fn hex_value(c: char) -> int {
    if '0' <= c && c <= '9' {
        c as int - '0' as int
    } else if 'A' <= c && c <= 'F' {
        c as int - 'A' as int + 10
    } else if 'a' <= c && c <= 'f' {
        c as int - 'a' as int + 10
    } else {
        0
    }
}

/// Percent-decoding: `%XY` stands for the byte `0xXY`, any other character
/// for its code. Read from the end, as a `%` in an encoding always opens an
/// escape of three characters.
pub open spec fn percent_decode(cs: Seq<char>) -> Seq<u8>
    decreases cs.len(),
{
    if cs.len() == 0 {
        Seq::empty()
    } else if cs.len() >= 3 && cs[cs.len() - 3] == '%' {
        percent_decode(cs.subrange(0, cs.len() - 3)) + seq![
            (hex_value(cs[cs.len() - 2]) * 16 + hex_value(cs[cs.len() - 1])) as u8,
        ]
    } else {
        percent_decode(cs.drop_last()) + seq![cs.last() as u8]
    }
}

proof fn lemma_hex_value(n: int)
    requires
        0 <= n < 16,
    ensures
        hex_value(hex_digit_upper(n)) == n,
        hex_digit_upper(n) != '%',
{
    let d = seq!['0', '1', '2', '3', '4', '5', '6', '7', '8', '9', 'A', 'B', 'C', 'D', 'E', 'F'];
    assert(hex_digit_upper(n) == d[n]);
    if n < 10 {
        assert(d[n] as int == '0' as int + n) by {
            assert(d[0] == '0' && d[1] == '1' && d[2] == '2' && d[3] == '3' && d[4] == '4');
            assert(d[5] == '5' && d[6] == '6' && d[7] == '7' && d[8] == '8' && d[9] == '9');
        }
    } else {
        assert(d[n] as int == 'A' as int + n - 10) by {
            assert(d[10] == 'A' && d[11] == 'B' && d[12] == 'C' && d[13] == 'D' && d[14] == 'E');
            assert(d[15] == 'F');
        }
    }
}

/// In an encoding, every `%` has the two digits of its escape after it.
proof fn lemma_escapes_complete(bs: Seq<u8>, encode_slash: bool)
    ensures
        forall|i: int|
            0 <= i < encode_bytes(bs, encode_slash).len() && encode_bytes(bs, encode_slash)[i]
                == '%' ==> i + 2 < encode_bytes(bs, encode_slash).len(),
    decreases bs.len(),
{
    if bs.len() > 0 {
        let pre = encode_bytes(bs.drop_last(), encode_slash);
        let b = bs.last();
        let e = encode_byte(b, encode_slash);
        lemma_escapes_complete(bs.drop_last(), encode_slash);
        let all = encode_bytes(bs, encode_slash);
        assert(all == pre + e);
        if !is_unreserved(b, encode_slash) {
            lemma_hex_value(b as int / 16);
            lemma_hex_value(b as int % 16);
        }
        assert forall|i: int| 0 <= i < all.len() && all[i] == '%' implies i + 2 < all.len() by {
            if i >= pre.len() {
                if is_unreserved(b, encode_slash) {
                    assert(all[i] == b as char);
                } else {
                    assert(i == pre.len() || all[i] != '%');
                }
            } else {
                assert(all[i] == pre[i]);
            }
        }
    }
}

proof fn lemma_decode_encoded_bytes(bs: Seq<u8>, encode_slash: bool)
    ensures
        percent_decode(encode_bytes(bs, encode_slash)) == bs,
    decreases bs.len(),
{
    if bs.len() > 0 {
        let pre_bytes = bs.drop_last();
        let pre = encode_bytes(pre_bytes, encode_slash);
        let b = bs.last();
        let all = encode_bytes(bs, encode_slash);
        lemma_decode_encoded_bytes(pre_bytes, encode_slash);
        lemma_escapes_complete(pre_bytes, encode_slash);
        if is_unreserved(b, encode_slash) {
            assert(all == pre.push(b as char));
            assert(all.drop_last() =~= pre);
            if all.len() >= 3 {
                let k = all.len() - 3;
                assert(all[k] == pre[k]);
                if pre[k] == '%' {
                    assert(k + 2 < pre.len());
                }
            }
            assert((b as char) as u8 == b);
        } else {
            let hi = hex_digit_upper(b as int / 16);
            let lo = hex_digit_upper(b as int % 16);
            lemma_hex_value(b as int / 16);
            lemma_hex_value(b as int % 16);
            assert(all == pre + seq!['%', hi, lo]);
            assert(all.subrange(0, all.len() - 3) =~= pre);
            assert(all[all.len() - 3] == '%');
            assert((b as int / 16) * 16 + b as int % 16 == b as int);
        }
        assert(bs =~= pre_bytes.push(b));
    }
}

/// Percent-decoding a URI-encoded text gives back its UTF-8 bytes.
pub proof fn law_uri_decode_round_trip(s: Seq<char>, encode_slash: bool)
    ensures
        percent_decode(spec_uri_encode(s, encode_slash)) == encode_utf8(s),
{
    lemma_decode_encoded_bytes(encode_utf8(s), encode_slash);
}

fn is_unreserved_exec(b: u8, encode_slash: bool) -> (r: bool)
    ensures
        r == is_unreserved(b, encode_slash),
{
    (65 <= b && b <= 90) || (97 <= b && b <= 122) || (48 <= b && b <= 57) || b == 45 || b == 46
        || b == 95 || b == 126 || (!encode_slash && b == 47)
}

fn upper_hex_digit(n: u8) -> (c: char)
    requires
        n < 16,
    ensures
        c == hex_digit_upper(n as int),
{
    let digits = ['0', '1', '2', '3', '4', '5', '6', '7', '8', '9', 'A', 'B', 'C', 'D', 'E', 'F'];
    let c = digits[n as usize];
    assert(digits@ =~= seq![
        '0',
        '1',
        '2',
        '3',
        '4',
        '5',
        '6',
        '7',
        '8',
        '9',
        'A',
        'B',
        'C',
        'D',
        'E',
        'F',
    ]);
    c
}

/// URI-encodes `input` the way SigV4 wants it; `encode_slash` also encodes `/`
/// (query parameters), else `/` stays (paths).
pub fn uri_encode(input: &str, encode_slash: bool) -> (r: String)
    ensures
        r@ == spec_uri_encode(input@, encode_slash),
{
    let bytes = utf8_bytes(input);
    let mut out: Vec<char> = Vec::new();
    let mut i: usize = 0;
    while i < bytes.len()
        invariant
            i <= bytes@.len(),
            out@ == encode_bytes(bytes@.subrange(0, i as int), encode_slash),
        decreases bytes.len() - i,
    {
        let b = bytes[i];
        let ghost pre = bytes@.subrange(0, i as int);
        assert(bytes@.subrange(0, i + 1).drop_last() =~= pre);
        if is_unreserved_exec(b, encode_slash) {
            out.push(b as char);
        } else {
            out.push('%');
            out.push(upper_hex_digit(b / 16));
            out.push(upper_hex_digit(b % 16));
        }
        assert(out@ =~= encode_bytes(pre, encode_slash) + encode_byte(b, encode_slash));
        i += 1;
    }
    assert(bytes@.subrange(0, bytes@.len() as int) =~= bytes@);
    string_of(out.as_slice())
}

// ───────────────────────── canonical query ─────────────────────────

/// Lexicographic order of character strings (`Ord` of `String` on ASCII text).
pub open spec fn lex_le(a: Seq<char>, b: Seq<char>) -> bool
    decreases a.len(),
{
    if a.len() == 0 {
        true
    } else if b.len() == 0 {
        false
    } else if a[0] != b[0] {
        a[0] < b[0]
    } else {
        lex_le(a.drop_first(), b.drop_first())
    }
}

/// Order of `(name, value)` pairs: by name, then by value.
pub open spec fn pair_le(x: (Seq<char>, Seq<char>), y: (Seq<char>, Seq<char>)) -> bool {
    (lex_le(x.0, y.0) && x.0 != y.0) || (x.0 == y.0 && lex_le(x.1, y.1))
}

pub open spec fn insert_sorted(x: (Seq<char>, Seq<char>), s: Seq<(Seq<char>, Seq<char>)>) -> Seq<
    (Seq<char>, Seq<char>),
>
    decreases s.len(),
{
    if s.len() == 0 {
        seq![x]
    } else if pair_le(x, s[0]) {
        seq![x] + s
    } else {
        seq![s[0]] + insert_sorted(x, s.drop_first())
    }
}

/// The pairs in ascending order.
pub open spec fn sort_pairs(s: Seq<(Seq<char>, Seq<char>)>) -> Seq<(Seq<char>, Seq<char>)>
    decreases s.len(),
{
    if s.len() == 0 {
        s
    } else {
        insert_sorted(s.last(), sort_pairs(s.drop_last()))
    }
}

pub open spec fn is_sorted(s: Seq<(Seq<char>, Seq<char>)>) -> bool {
    forall|i: int, j: int| 0 <= i < j < s.len() ==> pair_le(s[i], s[j])
}

pub open spec fn encoded_pairs(params: Seq<(String, String)>) -> Seq<(Seq<char>, Seq<char>)> {
    params.map_values(
        |p: (String, String)| (spec_uri_encode(p.0@, true), spec_uri_encode(p.1@, true)),
    )
}

/// `name=value` texts joined by `&`.
pub open spec fn join_pairs(s: Seq<(Seq<char>, Seq<char>)>) -> Seq<char>
    decreases s.len(),
{
    if s.len() == 0 {
        Seq::empty()
    } else if s.len() == 1 {
        s[0].0 + "="@ + s[0].1
    } else {
        join_pairs(s.drop_last()) + "&"@ + s.last().0 + "="@ + s.last().1
    }
}

/// The canonical query: encoded pairs in ascending order.
pub open spec fn spec_canonical_query(params: Seq<(String, String)>) -> Seq<char> {
    join_pairs(sort_pairs(encoded_pairs(params)))
}

/// The query as the URL carries it: encoded pairs in the given order.
pub open spec fn spec_url_query(params: Seq<(String, String)>) -> Seq<char> {
    join_pairs(encoded_pairs(params))
}

proof fn lemma_lex_total(a: Seq<char>, b: Seq<char>)
    ensures
        lex_le(a, b) || lex_le(b, a),
        lex_le(a, b) && lex_le(b, a) ==> a == b,
    decreases a.len(),
{
    if a.len() > 0 && b.len() > 0 && a[0] == b[0] {
        lemma_lex_total(a.drop_first(), b.drop_first());
        if lex_le(a, b) && lex_le(b, a) {
            assert(a =~= seq![a[0]] + a.drop_first());
            assert(b =~= seq![b[0]] + b.drop_first());
        }
    }
    if a.len() == 0 && b.len() == 0 {
        assert(a =~= b);
    }
}

proof fn lemma_lex_trans(a: Seq<char>, b: Seq<char>, c: Seq<char>)
    requires
        lex_le(a, b),
        lex_le(b, c),
    ensures
        lex_le(a, c),
    decreases a.len(),
{
    if a.len() > 0 && b.len() > 0 && c.len() > 0 && a[0] == b[0] && b[0] == c[0] {
        lemma_lex_trans(a.drop_first(), b.drop_first(), c.drop_first());
    }
}

proof fn lemma_pair_total(x: (Seq<char>, Seq<char>), y: (Seq<char>, Seq<char>))
    ensures
        pair_le(x, y) || pair_le(y, x),
{
    lemma_lex_total(x.0, y.0);
    lemma_lex_total(x.1, y.1);
}

proof fn lemma_pair_trans(
    x: (Seq<char>, Seq<char>),
    y: (Seq<char>, Seq<char>),
    z: (Seq<char>, Seq<char>),
)
    requires
        pair_le(x, y),
        pair_le(y, z),
    ensures
        pair_le(x, z),
{
    lemma_lex_total(x.0, y.0);
    lemma_lex_total(y.0, z.0);
    lemma_lex_total(x.0, z.0);
    if x.0 != y.0 && y.0 != z.0 {
        lemma_lex_trans(x.0, y.0, z.0);
        if x.0 == z.0 {
            lemma_lex_total(x.0, y.0);
        }
    } else if x.0 == y.0 && y.0 == z.0 {
        lemma_lex_trans(x.1, y.1, z.1);
    }
}

proof fn lemma_insert_sorted(x: (Seq<char>, Seq<char>), s: Seq<(Seq<char>, Seq<char>)>)
    requires
        is_sorted(s),
    ensures
        is_sorted(insert_sorted(x, s)),
        insert_sorted(x, s).len() == s.len() + 1,
        insert_sorted(x, s).to_multiset() == s.to_multiset().insert(x),
        forall|i: int| 0 <= i < insert_sorted(x, s).len() ==> #[trigger] insert_sorted(x, s)[i] == x
            || s.contains(insert_sorted(x, s)[i]),
    decreases s.len(),
{
    broadcast use vstd::seq_lib::group_to_multiset_ensures;
    if s.len() == 0 {
        assert(seq![x].to_multiset() =~= Multiset::<(Seq<char>, Seq<char>)>::empty().insert(x)) by {
            assert(seq![x] =~= Seq::<(Seq<char>, Seq<char>)>::empty().push(x));
        }
    } else if pair_le(x, s[0]) {
        let r = seq![x] + s;
        assert forall|i: int, j: int| 0 <= i < j < r.len() implies pair_le(r[i], r[j]) by {
            if i == 0 {
                if j > 1 {
                    lemma_pair_trans(x, s[0], s[j - 1]);
                }
            }
        }
        assert(r.to_multiset() =~= s.to_multiset().insert(x)) by {
            vstd::seq_lib::lemma_multiset_commutative(seq![x], s);
            assert(seq![x] =~= Seq::<(Seq<char>, Seq<char>)>::empty().push(x));
        }
        assert forall|i: int| 0 <= i < r.len() implies #[trigger] r[i] == x || s.contains(r[i]) by {
            if i > 0 {
                assert(s[i - 1] == r[i]);
            }
        }
    } else {
        let t = s.drop_first();
        assert(is_sorted(t)) by {
            assert forall|i: int, j: int| 0 <= i < j < t.len() implies pair_le(t[i], t[j]) by {
                assert(t[i] == s[i + 1] && t[j] == s[j + 1]);
            }
        }
        lemma_insert_sorted(x, t);
        let rest = insert_sorted(x, t);
        let r = seq![s[0]] + rest;
        lemma_pair_total(x, s[0]);
        assert forall|i: int, j: int| 0 <= i < j < r.len() implies pair_le(r[i], r[j]) by {
            if i == 0 {
                assert(r[j] == rest[j - 1]);
                if rest[j - 1] != x {
                    assert(t.contains(rest[j - 1]));
                    let k = choose|k: int| 0 <= k < t.len() && t[k] == rest[j - 1];
                    assert(s[k + 1] == t[k]);
                }
            } else {
                assert(r[i] == rest[i - 1] && r[j] == rest[j - 1]);
            }
        }
        assert(r.to_multiset() =~= s.to_multiset().insert(x)) by {
            vstd::seq_lib::lemma_multiset_commutative(seq![s[0]], rest);
            vstd::seq_lib::lemma_multiset_commutative(seq![s[0]], t);
            assert(s =~= seq![s[0]] + t);
            assert(seq![s[0]] =~= Seq::<(Seq<char>, Seq<char>)>::empty().push(s[0]));
        }
        assert forall|i: int| 0 <= i < r.len() implies #[trigger] r[i] == x || s.contains(r[i]) by {
            if i == 0 {
                assert(s.contains(s[0]));
            } else {
                assert(r[i] == rest[i - 1]);
                if rest[i - 1] != x {
                    let k = choose|k: int| 0 <= k < t.len() && t[k] == rest[i - 1];
                    assert(s[k + 1] == t[k]);
                }
            }
        }
    }
}

/// Sorting the query pairs gives them in ascending order, each one as often as
/// it was given.
pub proof fn law_sort_pairs_sorted_permutation(s: Seq<(Seq<char>, Seq<char>)>)
    ensures
        is_sorted(sort_pairs(s)),
        sort_pairs(s).to_multiset() == s.to_multiset(),
    decreases s.len(),
{
    broadcast use vstd::seq_lib::group_to_multiset_ensures;
    if s.len() > 0 {
        law_sort_pairs_sorted_permutation(s.drop_last());
        lemma_insert_sorted(s.last(), sort_pairs(s.drop_last()));
        assert(s =~= s.drop_last().push(s.last()));
    }
}

fn lex_le_exec(a: &[char], b: &[char]) -> (r: bool)
    ensures
        r == lex_le(a@, b@),
{
    let mut i: usize = 0;
    assert(a@.subrange(0, a@.len() as int) =~= a@);
    assert(b@.subrange(0, b@.len() as int) =~= b@);
    while i < a.len() && i < b.len() && a[i] == b[i]
        invariant
            i <= a@.len(),
            i <= b@.len(),
            lex_le(a@, b@) == lex_le(a@.subrange(i as int, a@.len() as int), b@.subrange(i as int, b@.len() as int)),
        decreases a.len() - i,
    {
        let ghost sa = a@.subrange(i as int, a@.len() as int);
        let ghost sb = b@.subrange(i as int, b@.len() as int);
        assert(sa.drop_first() =~= a@.subrange(i + 1, a@.len() as int));
        assert(sb.drop_first() =~= b@.subrange(i + 1, b@.len() as int));
        i += 1;
    }
    let ghost sa = a@.subrange(i as int, a@.len() as int);
    let ghost sb = b@.subrange(i as int, b@.len() as int);
    if i == a.len() {
        true
    } else if i == b.len() {
        false
    } else {
        assert(sa[0] == a@[i as int] && sb[0] == b@[i as int]);
        a[i] < b[i]
    }
}

fn chars_eq(a: &[char], b: &[char]) -> (r: bool)
    ensures
        r == (a@ == b@),
{
    if a.len() != b.len() {
        return false;
    }
    let mut i: usize = 0;
    while i < a.len()
        invariant
            i <= a@.len(),
            a@.len() == b@.len(),
            forall|j: int| 0 <= j < i ==> a@[j] == b@[j],
        decreases a.len() - i,
    {
        if a[i] != b[i] {
            return false;
        }
        i += 1;
    }
    assert(a@ =~= b@);
    true
}

fn pair_le_exec(x: &(Vec<char>, Vec<char>), y: &(Vec<char>, Vec<char>)) -> (r: bool)
    ensures
        r == pair_le((x.0@, x.1@), (y.0@, y.1@)),
{
    let same_name = chars_eq(x.0.as_slice(), y.0.as_slice());
    (lex_le_exec(x.0.as_slice(), y.0.as_slice()) && !same_name) || (same_name && lex_le_exec(
        x.1.as_slice(),
        y.1.as_slice(),
    ))
}

pub open spec fn pairs_view(v: Seq<(Vec<char>, Vec<char>)>) -> Seq<(Seq<char>, Seq<char>)> {
    v.map_values(|p: (Vec<char>, Vec<char>)| (p.0@, p.1@))
}

proof fn lemma_insert_at(x: (Seq<char>, Seq<char>), s: Seq<(Seq<char>, Seq<char>)>, j: int)
    requires
        0 <= j <= s.len(),
        forall|k: int| 0 <= k < j ==> !pair_le(x, #[trigger] s[k]),
        j < s.len() ==> pair_le(x, s[j]),
    ensures
        insert_sorted(x, s) == s.subrange(0, j) + seq![x] + s.subrange(j, s.len() as int),
    decreases s.len(),
{
    if j == 0 {
        if s.len() == 0 {
            assert(s.subrange(0, 0) + seq![x] + s.subrange(0, 0) =~= seq![x]);
        } else {
            assert(s.subrange(0, 0) + seq![x] + s.subrange(0, s.len() as int) =~= seq![x] + s);
        }
    } else {
        let t = s.drop_first();
        assert forall|k: int| 0 <= k < j - 1 implies !pair_le(x, #[trigger] t[k]) by {
            assert(t[k] == s[k + 1]);
        }
        lemma_insert_at(x, t, j - 1);
        assert(!pair_le(x, s[0]));
        assert(seq![s[0]] + (t.subrange(0, j - 1) + seq![x] + t.subrange(j - 1, t.len() as int))
            =~= s.subrange(0, j) + seq![x] + s.subrange(j, s.len() as int));
    }
}

fn insert_pair(sorted: &mut Vec<(Vec<char>, Vec<char>)>, x: (Vec<char>, Vec<char>))
    ensures
        pairs_view(final(sorted)@) == insert_sorted((x.0@, x.1@), pairs_view(old(sorted)@)),
{
    let ghost s = pairs_view(sorted@);
    let ghost xv = (x.0@, x.1@);
    let mut j: usize = 0;
    while j < sorted.len() && !pair_le_exec(&x, &sorted[j])
        invariant
            j <= sorted@.len(),
            s == pairs_view(sorted@),
            xv == (x.0@, x.1@),
            forall|k: int| 0 <= k < j ==> !pair_le(xv, #[trigger] s[k]),
        decreases sorted.len() - j,
    {
        assert(s[j as int] == (sorted@[j as int].0@, sorted@[j as int].1@));
        j += 1;
    }
    proof {
        if j < sorted@.len() {
            assert(s[j as int] == (sorted@[j as int].0@, sorted@[j as int].1@));
        }
        lemma_insert_at(xv, s, j as int);
    }
    sorted.insert(j, x);
    assert(pairs_view(sorted@) =~= s.subrange(0, j as int) + seq![xv] + s.subrange(
        j as int,
        s.len() as int,
    ));
}

fn join_pairs_exec(s: &Vec<(Vec<char>, Vec<char>)>) -> (r: Vec<char>)
    ensures
        r@ == join_pairs(pairs_view(s@)),
{
    let mut out: Vec<char> = Vec::new();
    let eq = chars_of("=");
    let amp = chars_of("&");
    let mut i: usize = 0;
    while i < s.len()
        invariant
            i <= s@.len(),
            eq@ == "="@,
            amp@ == "&"@,
            out@ == join_pairs(pairs_view(s@).subrange(0, i as int)),
        decreases s.len() - i,
    {
        let ghost pre = pairs_view(s@).subrange(0, i as int);
        let ghost next = pairs_view(s@).subrange(0, i + 1);
        assert(next.drop_last() =~= pre);
        if i > 0 {
            out = concat(out.as_slice(), amp.as_slice());
        }
        out = concat(out.as_slice(), s[i].0.as_slice());
        out = concat(out.as_slice(), eq.as_slice());
        out = concat(out.as_slice(), s[i].1.as_slice());
        proof {
            if i == 0 {
                assert(out@ =~= next[0].0 + "="@ + next[0].1);
            } else {
                assert(out@ =~= join_pairs(pre) + "&"@ + next.last().0 + "="@ + next.last().1);
            }
        }
        i += 1;
    }
    assert(pairs_view(s@).subrange(0, s@.len() as int) =~= pairs_view(s@));
    out
}

fn encode_params(params: &Vec<(String, String)>) -> (r: Vec<(Vec<char>, Vec<char>)>)
    ensures
        pairs_view(r@) == encoded_pairs(params@),
{
    let mut r: Vec<(Vec<char>, Vec<char>)> = Vec::new();
    let mut i: usize = 0;
    while i < params.len()
        invariant
            i <= params@.len(),
            pairs_view(r@) == encoded_pairs(params@).subrange(0, i as int),
        decreases params.len() - i,
    {
        let k = uri_encode(params[i].0.as_str(), true);
        let v = uri_encode(params[i].1.as_str(), true);
        assert(encoded_pairs(params@)[i as int] == (k@, v@));
        let kc = chars_of(k.as_str());
        let vc = chars_of(v.as_str());
        let ghost old_r = r@;
        r.push((kc, vc));
        assert(r@ == old_r.push((kc, vc)));
        assert(pairs_view(r@) =~= pairs_view(old_r).push((k@, v@)));
        assert(pairs_view(r@) =~= encoded_pairs(params@).subrange(0, i + 1));
        i += 1;
    }
    assert(encoded_pairs(params@).subrange(0, params@.len() as int) =~= encoded_pairs(params@));
    r
}

/// The canonical query string of SigV4: each name and value URI-encoded, the
/// pairs sorted, written `name=value` and joined by `&`.
pub fn canonical_query(params: &Vec<(String, String)>) -> (r: String)
    ensures
        r@ == spec_canonical_query(params@),
{
    let enc = encode_params(params);
    let ghost e = pairs_view(enc@);
    let mut sorted: Vec<(Vec<char>, Vec<char>)> = Vec::new();
    let mut i: usize = 0;
    while i < enc.len()
        invariant
            i <= enc@.len(),
            e == pairs_view(enc@),
            pairs_view(sorted@) == sort_pairs(e.subrange(0, i as int)),
        decreases enc.len() - i,
    {
        let ghost pre = e.subrange(0, i as int);
        let ghost next = e.subrange(0, i + 1);
        assert(next.drop_last() =~= pre);
        assert(next.last() == e[i as int]);
        let x = (copy_range(enc[i].0.as_slice(), 0, enc[i].0.len()), copy_range(
            enc[i].1.as_slice(),
            0,
            enc[i].1.len(),
        ));
        assert(x.0@ =~= enc@[i as int].0@ && x.1@ =~= enc@[i as int].1@);
        insert_pair(&mut sorted, x);
        i += 1;
    }
    assert(e.subrange(0, e.len() as int) =~= e);
    string_of(join_pairs_exec(&sorted).as_slice())
}

/// The query as the request URL carries it: the encoded pairs in their order.
pub fn url_query(params: &Vec<(String, String)>) -> (r: String)
    ensures
        r@ == spec_url_query(params@),
{
    let enc = encode_params(params);
    string_of(join_pairs_exec(&enc).as_slice())
}

// ───────────────────────── signing ─────────────────────────

pub open spec fn spec_signing_key(
    secret: Seq<char>,
    date: Seq<char>,
    region: Seq<char>,
    service: Seq<char>,
) -> Seq<u8> {
    let k_date = hmac_sha256_tag(encode_utf8("AWS4"@ + secret), encode_utf8(date));
    let k_region = hmac_sha256_tag(k_date, encode_utf8(region));
    let k_service = hmac_sha256_tag(k_region, encode_utf8(service));
    hmac_sha256_tag(k_service, encode_utf8("aws4_request"@))
}

/// The SigV4 signing key: HMAC chained over the date, region, service and
/// `aws4_request`, starting from `"AWS4"` followed by the secret.
pub fn derive_signing_key(secret_key: &str, date: &str, region: &str, service: &str) -> (r: Vec<
    u8,
>)
    ensures
        r@ == spec_signing_key(secret_key@, date@, region@, service@),
{
    let seed = string_of(concat(chars_of("AWS4").as_slice(), chars_of(secret_key).as_slice()).as_slice());
    let k_date = hmac_sha256(utf8_bytes(seed.as_str()).as_slice(), utf8_bytes(date).as_slice());
    let k_region = hmac_sha256(k_date.as_slice(), utf8_bytes(region).as_slice());
    let k_service = hmac_sha256(k_region.as_slice(), utf8_bytes(service).as_slice());
    hmac_sha256(k_service.as_slice(), utf8_bytes("aws4_request").as_slice())
}

/// A request method of the S3 API.
#[derive(Debug, Clone, Copy, PartialEq, Eq, Structural)]
pub enum HttpMethod {
    Get,
    Put,
    Delete,
    Head,
}

pub open spec fn method_name(m: HttpMethod) -> Seq<char> {
    match m {
        HttpMethod::Get => "GET"@,
        HttpMethod::Put => "PUT"@,
        HttpMethod::Delete => "DELETE"@,
        HttpMethod::Head => "HEAD"@,
    }
}

/// The method as the request line writes it.
pub fn method_str(m: HttpMethod) -> (r: String)
    ensures
        r@ == method_name(m),
{
    let s = match m {
        HttpMethod::Get => "GET",
        HttpMethod::Put => "PUT",
        HttpMethod::Delete => "DELETE",
        HttpMethod::Head => "HEAD",
    };
    owned(s)
}

pub open spec fn all_ascii(s: Seq<char>) -> bool {
    forall|i: int| 0 <= i < s.len() ==> (#[trigger] s[i] as u32) < 128
}

/// What the signer needs of a request.
pub struct RequestToSign {
    pub method: HttpMethod,
    pub path: String,
    pub query_params: Vec<(String, String)>,
    pub content_type: Option<String>,
    pub body_hash: String,
    pub amz_date: String,
    pub host: String,
    pub access_key_id: String,
    pub secret_access_key: String,
}

/// The headers a signed request carries, and the texts they come from.
pub struct Signature {
    pub canonical_request: String,
    pub string_to_sign: String,
    pub signed_headers: String,
    pub authorization: String,
}

pub open spec fn opt_chars(o: Option<String>) -> Option<Seq<char>> {
    match o {
        Some(s) => Some(s@),
        None => None,
    }
}

pub open spec fn spec_canonical_headers(
    host: Seq<char>,
    body_hash: Seq<char>,
    amz_date: Seq<char>,
    content_type: Option<Seq<char>>,
) -> Seq<char> {
    let ct_line = match content_type {
        Some(ct) => "content-type:"@ + trim(ct) + "\n"@,
        None => Seq::empty(),
    };
    ct_line + "host:"@ + trim(host) + "\n"@ + "x-amz-content-sha256:"@ + trim(body_hash) + "\n"@
        + "x-amz-date:"@ + trim(amz_date) + "\n"@
}

pub open spec fn spec_signed_headers(has_content_type: bool) -> Seq<char> {
    if has_content_type {
        "content-type;host;x-amz-content-sha256;x-amz-date"@
    } else {
        "host;x-amz-content-sha256;x-amz-date"@
    }
}

pub open spec fn spec_canonical_request(r: RequestToSign) -> Seq<char> {
    method_name(r.method) + "\n"@ + spec_uri_encode(r.path@, false) + "\n"@
        + spec_canonical_query(r.query_params@) + "\n"@ + spec_canonical_headers(
        r.host@,
        r.body_hash@,
        r.amz_date@,
        opt_chars(r.content_type),
    ) + "\n"@ + spec_signed_headers(r.content_type is Some) + "\n"@ + r.body_hash@
}

pub open spec fn spec_credential_scope(amz_date: Seq<char>) -> Seq<char> {
    amz_date.subrange(0, 8) + "/auto/s3/aws4_request"@
}

pub open spec fn spec_string_to_sign(r: RequestToSign) -> Seq<char> {
    "AWS4-HMAC-SHA256\n"@ + r.amz_date@ + "\n"@ + spec_credential_scope(r.amz_date@) + "\n"@
        + hex_lower(sha256_digest(encode_utf8(spec_canonical_request(r))))
}

pub open spec fn spec_authorization(r: RequestToSign) -> Seq<char> {
    let signature = hex_lower(
        hmac_sha256_tag(
            spec_signing_key(r.secret_access_key@, r.amz_date@.subrange(0, 8), "auto"@, "s3"@),
            encode_utf8(spec_string_to_sign(r)),
        ),
    );
    "AWS4-HMAC-SHA256 Credential="@ + r.access_key_id@ + "/"@ + spec_credential_scope(r.amz_date@)
        + ", SignedHeaders="@ + spec_signed_headers(r.content_type is Some) + ", Signature="@
        + signature
}

fn cat(a: Vec<char>, s: &str) -> (r: Vec<char>)
    ensures
        r@ == a@ + s@,
{
    concat(a.as_slice(), chars_of(s).as_slice())
}

fn cat_v(a: Vec<char>, b: &[char]) -> (r: Vec<char>)
    ensures
        r@ == a@ + b@,
{
    concat(a.as_slice(), b)
}

/// Signs a request with SigV4 for region `auto` and service `s3`. `amz_date`
/// is the `%Y%m%dT%H%M%SZ` time stamp; its first eight characters are the date.
pub fn sign(r: &RequestToSign) -> (sig: Signature)
    requires
        r.amz_date@.len() >= 8,
        all_ascii(r.amz_date@),
    ensures
        sig.canonical_request@ == spec_canonical_request(*r),
        sig.string_to_sign@ == spec_string_to_sign(*r),
        sig.signed_headers@ == spec_signed_headers(r.content_type is Some),
        sig.authorization@ == spec_authorization(*r),
{
    let nl = "\n";
    // canonical headers, sorted by name as in SignedHeaders
    let mut headers: Vec<char> = Vec::new();
    match &r.content_type {
        Some(ct) => {
            headers = cat(headers, "content-type:");
            headers = cat_v(headers, trim_exec(chars_of(ct.as_str()).as_slice()).as_slice());
            headers = cat(headers, nl);
        },
        None => {},
    }
    headers = cat(headers, "host:");
    headers = cat_v(headers, trim_exec(chars_of(r.host.as_str()).as_slice()).as_slice());
    headers = cat(headers, nl);
    headers = cat(headers, "x-amz-content-sha256:");
    headers = cat_v(headers, trim_exec(chars_of(r.body_hash.as_str()).as_slice()).as_slice());
    headers = cat(headers, nl);
    headers = cat(headers, "x-amz-date:");
    headers = cat_v(headers, trim_exec(chars_of(r.amz_date.as_str()).as_slice()).as_slice());
    headers = cat(headers, nl);
    assert(headers@ =~= spec_canonical_headers(
        r.host@,
        r.body_hash@,
        r.amz_date@,
        opt_chars(r.content_type),
    ));
    let signed = if r.content_type.is_some() {
        chars_of("content-type;host;x-amz-content-sha256;x-amz-date")
    } else {
        chars_of("host;x-amz-content-sha256;x-amz-date")
    };
    // canonical request
    let mut req = cat(chars_of(method_str(r.method).as_str()), nl);
    req = cat(req, uri_encode(r.path.as_str(), false).as_str());
    req = cat(req, nl);
    req = cat(req, canonical_query(&r.query_params).as_str());
    req = cat(req, nl);
    req = cat_v(req, headers.as_slice());
    req = cat(req, nl);
    req = cat_v(req, signed.as_slice());
    req = cat(req, nl);
    req = cat(req, r.body_hash.as_str());
    let canonical = string_of(req.as_slice());
    assert(canonical@ =~= spec_canonical_request(*r));
    // string to sign
    let date_chars = chars_of(r.amz_date.as_str());
    let date_stamp = copy_range(date_chars.as_slice(), 0, 8);
    let scope = cat(copy_range(date_stamp.as_slice(), 0, 8), "/auto/s3/aws4_request");
    assert(scope@ =~= spec_credential_scope(r.amz_date@));
    let hashed = hex_encode(sha256(utf8_bytes(canonical.as_str()).as_slice()).as_slice());
    let mut sts = cat(chars_of("AWS4-HMAC-SHA256\n"), r.amz_date.as_str());
    sts = cat(sts, nl);
    sts = cat_v(sts, scope.as_slice());
    sts = cat(sts, nl);
    sts = cat(sts, hashed.as_str());
    let string_to_sign = string_of(sts.as_slice());
    assert(string_to_sign@ =~= spec_string_to_sign(*r));
    // signature
    let date_str = string_of(date_stamp.as_slice());
    let key = derive_signing_key(r.secret_access_key.as_str(), date_str.as_str(), "auto", "s3");
    let signature = hex_encode(
        hmac_sha256(key.as_slice(), utf8_bytes(string_to_sign.as_str()).as_slice()).as_slice(),
    );
    let mut auth = cat(chars_of("AWS4-HMAC-SHA256 Credential="), r.access_key_id.as_str());
    auth = cat(auth, "/");
    auth = cat_v(auth, scope.as_slice());
    auth = cat(auth, ", SignedHeaders=");
    auth = cat_v(auth, signed.as_slice());
    auth = cat(auth, ", Signature=");
    auth = cat(auth, signature.as_str());
    let authorization = string_of(auth.as_slice());
    assert(authorization@ =~= spec_authorization(*r));
    Signature {
        canonical_request: canonical,
        string_to_sign,
        signed_headers: string_of(signed.as_slice()),
        authorization,
    }
}

/// The `x-amz-content-sha256` of a body: its SHA-256 digest in lowercase
/// hexadecimal.
pub fn payload_hash(body: &[u8]) -> (h: String)
    ensures
        h@ == hex_lower(sha256_digest(body@)),
{
    hex_encode(sha256(body).as_slice())
}

} // verus!
