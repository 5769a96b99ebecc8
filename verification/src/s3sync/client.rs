//! The S3 client's own logic: its endpoint and paths, the listing query, the
//! signing of each request, and the reading of listings and object headers.
use vstd::prelude::*;

use crate::error::AppError;
use crate::pathmap::PathMap;
use crate::text::{
    chars_of, concat, copy_range, find_from, find_from_exec, lemma_find_from_bounds,
    matches_at_exec, owned, parse_unsigned, parse_unsigned_exec, starts_with, string_of,
    decimal, lemma_decimal_spells,
};
use super::sigv4::{all_ascii, sign, HttpMethod, RequestToSign, Signature};
use super::types::FileEntry;

verus! {

// ───────────────────────── outside time handling ─────────────────────────

/// The `%Y%m%dT%H%M%SZ` stamp chrono writes for a Unix time.
pub uninterp spec fn amz_timestamp(secs: i64) -> Seq<char>;

/// The Unix time of an RFC 3339 date, if it parses.
pub uninterp spec fn rfc3339_seconds(s: Seq<char>) -> Option<i64>;

/// The Unix time of an RFC 2822 date, if it parses.
pub uninterp spec fn rfc2822_seconds(s: Seq<char>) -> Option<i64>;

/// `chrono::DateTime::<Utc>::from_timestamp(secs, 0)`, the epoch where out of
/// range, formatted with `%Y%m%dT%H%M%SZ`. Trusted to be ASCII and at least 16
/// characters long: chrono pads `%Y` to four digits and writes a sign beyond
/// year 9999.
#[verifier::external_body]
fn amz_date(secs: i64) -> (r: String)
    ensures
        r@ == amz_timestamp(secs),
        r@.len() >= 16,
        all_ascii(r@),
{
    chrono::DateTime::<chrono::Utc>::from_timestamp(secs, 0).unwrap_or_default().format(
        "%Y%m%dT%H%M%SZ",
    ).to_string()
}

/// `chrono::DateTime::parse_from_rfc3339`, as seconds since the epoch.
#[verifier::external_body]
fn parse_rfc3339_seconds(s: &str) -> (r: Option<i64>)
    ensures
        r == rfc3339_seconds(s@),
{
    chrono::DateTime::parse_from_rfc3339(s).ok().map(|dt| dt.timestamp())
}

/// `chrono::DateTime::parse_from_rfc2822` (the HTTP date format), as seconds
/// since the epoch.
#[verifier::external_body]
fn parse_http_date(s: &str) -> (r: Option<i64>)
    ensures
        r == rfc2822_seconds(s@),
{
    chrono::DateTime::parse_from_rfc2822(s).ok().map(|dt| dt.timestamp())
}

// ───────────────────────── trimming helpers ─────────────────────────

pub open spec fn trim_end_char(s: Seq<char>, c: char) -> Seq<char>
    decreases s.len(),
{
    if s.len() > 0 && s.last() == c {
        trim_end_char(s.drop_last(), c)
    } else {
        s
    }
}

pub open spec fn trim_start_char(s: Seq<char>, c: char) -> Seq<char>
    decreases s.len(),
{
    if s.len() > 0 && s[0] == c {
        trim_start_char(s.drop_first(), c)
    } else {
        s
    }
}

/// `str::trim_start_matches` with a text pattern: every leading copy removed.
pub open spec fn strip_prefixes(s: Seq<char>, p: Seq<char>) -> Seq<char>
    decreases s.len(),
{
    if p.len() > 0 && starts_with(s, p) {
        strip_prefixes(s.subrange(p.len() as int, s.len() as int), p)
    } else {
        s
    }
}

pub fn trim_end_char_exec(s: &[char], c: char) -> (r: Vec<char>)
    ensures
        r@ == trim_end_char(s@, c),
{
    let mut n = s.len();
    assert(s@.subrange(0, s@.len() as int) =~= s@);
    while n > 0 && s[n - 1] == c
        invariant
            n <= s@.len(),
            trim_end_char(s@, c) == trim_end_char(s@.subrange(0, n as int), c),
        decreases n,
    {
        assert(s@.subrange(0, n as int).drop_last() =~= s@.subrange(0, n - 1));
        n -= 1;
    }
    copy_range(s, 0, n)
}

pub fn trim_start_char_exec(s: &[char], c: char) -> (r: Vec<char>)
    ensures
        r@ == trim_start_char(s@, c),
{
    let mut k: usize = 0;
    assert(s@.subrange(0, s@.len() as int) =~= s@);
    while k < s.len() && s[k] == c
        invariant
            k <= s@.len(),
            trim_start_char(s@, c) == trim_start_char(s@.subrange(k as int, s@.len() as int), c),
        decreases s.len() - k,
    {
        assert(s@.subrange(k as int, s@.len() as int).drop_first() =~= s@.subrange(
            k + 1,
            s@.len() as int,
        ));
        k += 1;
    }
    copy_range(s, k, s.len())
}

pub open spec fn trim_quotes(s: Seq<char>) -> Seq<char> {
    trim_end_char(trim_start_char(s, '"'), '"')
}

/// `str::trim_matches('"')`: an ETag without its quotes.
pub fn strip_quotes(s: &str) -> (r: String)
    ensures
        r@ == trim_quotes(s@),
{
    let a = trim_start_char_exec(chars_of(s).as_slice(), '"');
    string_of(trim_end_char_exec(a.as_slice(), '"').as_slice())
}

fn strip_prefixes_exec(s: &[char], p: &[char]) -> (r: Vec<char>)
    ensures
        r@ == strip_prefixes(s@, p@),
{
    let mut k: usize = 0;
    assert(s@.subrange(0, s@.len() as int) =~= s@);
    if p.len() == 0 {
        return copy_range(s, 0, s.len());
    }
    while k <= s.len() && matches_at_exec(s, p, k)
        invariant
            k <= s@.len(),
            p@.len() > 0,
            strip_prefixes(s@, p@) == strip_prefixes(s@.subrange(k as int, s@.len() as int), p@),
        decreases s.len() - k,
    {
        let ghost t = s@.subrange(k as int, s@.len() as int);
        assert(t.subrange(0, p@.len() as int) =~= s@.subrange(k as int, k + p@.len()));
        assert(t.subrange(p@.len() as int, t.len() as int) =~= s@.subrange(
            k + p@.len(),
            s@.len() as int,
        ));
        k = k + p.len();
    }
    let ghost t = s@.subrange(k as int, s@.len() as int);
    assert(!starts_with(t, p@)) by {
        if starts_with(t, p@) {
            assert(t.subrange(0, p@.len() as int) =~= s@.subrange(k as int, k + p@.len()));
        }
    }
    copy_range(s, k, s.len())
}

// ───────────────────────── the client ─────────────────────────

/// Endpoint, credentials and bucket of an S3-compatible store; the HTTP
/// connection is held by the caller.
pub struct S3Client {
    pub endpoint: String,
    pub access_key_id: String,
    pub secret_access_key: String,
    pub bucket: String,
}

pub open spec fn spec_host(endpoint: Seq<char>) -> Seq<char> {
    trim_end_char(strip_prefixes(strip_prefixes(endpoint, "https://"@), "http://"@), '/')
}

impl S3Client {
    /// A client; trailing `/` of the endpoint are dropped.
    pub fn new(endpoint: &str, access_key_id: &str, secret_access_key: &str, bucket: &str) -> (c:
        S3Client)
        ensures
            c.endpoint@ == trim_end_char(endpoint@, '/'),
            c.access_key_id@ == access_key_id@,
            c.secret_access_key@ == secret_access_key@,
            c.bucket@ == bucket@,
    {
        S3Client {
            endpoint: string_of(trim_end_char_exec(chars_of(endpoint).as_slice(), '/').as_slice()),
            access_key_id: owned(access_key_id),
            secret_access_key: owned(secret_access_key),
            bucket: owned(bucket),
        }
    }

    /// The host part of the endpoint: scheme and trailing `/` removed.
    pub fn host(&self) -> (h: String)
        ensures
            h@ == spec_host(self.endpoint@),
    {
        let a = strip_prefixes_exec(chars_of(self.endpoint.as_str()).as_slice(), chars_of("https://").as_slice());
        let b = strip_prefixes_exec(a.as_slice(), chars_of("http://").as_slice());
        string_of(trim_end_char_exec(b.as_slice(), '/').as_slice())
    }

    /// `/<bucket>`, the path of a listing.
    pub fn bucket_path(&self) -> (p: String)
        ensures
            p@ == "/"@ + self.bucket@,
    {
        string_of(concat(chars_of("/").as_slice(), chars_of(self.bucket.as_str()).as_slice()).as_slice())
    }

    /// `/<bucket>/<key>`, the path of an object.
    pub fn object_path(&self, key: &str) -> (p: String)
        ensures
            p@ == "/"@ + self.bucket@ + "/"@ + key@,
    {
        let a = concat(chars_of("/").as_slice(), chars_of(self.bucket.as_str()).as_slice());
        let b = concat(a.as_slice(), chars_of("/").as_slice());
        string_of(concat(b.as_slice(), chars_of(key).as_slice()).as_slice())
    }

    /// The endpoint followed by `path`.
    pub fn url(&self, path: &str) -> (u: String)
        ensures
            u@ == self.endpoint@ + path@,
    {
        string_of(concat(chars_of(self.endpoint.as_str()).as_slice(), chars_of(path).as_slice()).as_slice())
    }

    /// Signs a request to `path` made at `now_secs` seconds since the epoch
    /// (see `sign`); its time stamp is that second's `%Y%m%dT%H%M%SZ`.
    pub fn sign_request(
        &self,
        method: HttpMethod,
        path: &str,
        query_params: Vec<(String, String)>,
        content_type: Option<String>,
        body_hash: &str,
        now_secs: i64,
    ) -> (r: (RequestToSign, Signature))
        ensures
            r.0.method == method,
            r.0.path@ == path@,
            r.0.query_params@ == query_params@,
            r.0.content_type == content_type,
            r.0.body_hash@ == body_hash@,
            r.0.amz_date@ == amz_timestamp(now_secs),
            r.0.host@ == spec_host(self.endpoint@),
            r.0.access_key_id@ == self.access_key_id@,
            r.0.secret_access_key@ == self.secret_access_key@,
            r.1.canonical_request@ == super::sigv4::spec_canonical_request(r.0),
            r.1.string_to_sign@ == super::sigv4::spec_string_to_sign(r.0),
            r.1.signed_headers@ == super::sigv4::spec_signed_headers(content_type is Some),
            r.1.authorization@ == super::sigv4::spec_authorization(r.0),
    {
        let amz_date = amz_date(now_secs);
        let req = RequestToSign {
            method,
            path: owned(path),
            query_params,
            content_type,
            body_hash: owned(body_hash),
            amz_date,
            host: self.host(),
            access_key_id: self.access_key_id.clone(),
            secret_access_key: self.secret_access_key.clone(),
        };
        let sig = sign(&req);
        (req, sig)
    }
}

pub open spec fn spec_list_query(prefix: Seq<char>, token: Option<Seq<char>>) -> Seq<
    (Seq<char>, Seq<char>),
> {
    let base = seq![("list-type"@, "2"@), ("prefix"@, prefix), ("max-keys"@, "1000"@)];
    match token {
        Some(t) => base.push(("continuation-token"@, t)),
        None => base,
    }
}

pub open spec fn params_view(v: Seq<(String, String)>) -> Seq<(Seq<char>, Seq<char>)> {
    v.map_values(|p: (String, String)| (p.0@, p.1@))
}


/// Query parameters of one ListObjectsV2 page.
pub fn list_query(prefix: &str, continuation_token: Option<&str>) -> (q: Vec<(String, String)>)
    ensures
        params_view(q@) == spec_list_query(
            prefix@,
            match continuation_token {
                Some(t) => Some(t@),
                None => None,
            },
        ),
{
    let mut q: Vec<(String, String)> = Vec::new();
    q.push((owned("list-type"), owned("2")));
    q.push((owned("prefix"), owned(prefix)));
    q.push((owned("max-keys"), owned("1000")));
    match continuation_token {
        Some(t) => {
            q.push((owned("continuation-token"), owned(t)));
        },
        None => {},
    }
    assert(params_view(q@) =~= spec_list_query(
        prefix@,
        match continuation_token {
            Some(t) => Some(t@),
            None => None,
        },
    ));
    q
}

// ───────────────────────── reading a listing ─────────────────────────

/// The text between the first `<tag>` and the next `</tag>` after it.
pub open spec fn spec_xml_value(xml: Seq<char>, tag: Seq<char>) -> Option<Seq<char>> {
    let open = "<"@ + tag + ">"@;
    let close = "</"@ + tag + ">"@;
    match find_from(xml, open, 0) {
        None => None,
        Some(i) => {
            let start = i + open.len();
            match find_from(xml.subrange(start, xml.len() as int), close, 0) {
                None => None,
                Some(e) => Some(xml.subrange(start, start + e)),
            }
        },
    }
}

/// The text content of the first `<tag>` element of `xml`.
pub fn extract_xml_value(xml: &str, tag: &str) -> (r: Option<String>)
    ensures
        r matches Some(v) ==> spec_xml_value(xml@, tag@) == Some(v@),
        r is None ==> spec_xml_value(xml@, tag@) is None,
{
    match xml_value(chars_of(xml).as_slice(), tag) {
        Some(v) => Some(string_of(v.as_slice())),
        None => None,
    }
}

fn xml_value(x: &[char], tag: &str) -> (r: Option<Vec<char>>)
    ensures
        r matches Some(v) ==> spec_xml_value(x@, tag@) == Some(v@),
        r is None ==> spec_xml_value(x@, tag@) is None,
{
    let t = chars_of(tag);
    let open = concat(concat(chars_of("<").as_slice(), t.as_slice()).as_slice(), chars_of(">").as_slice());
    let close = concat(concat(chars_of("</").as_slice(), t.as_slice()).as_slice(), chars_of(">").as_slice());
    let i = match find_from_exec(x, open.as_slice(), 0) {
        Some(i) => i,
        None => return None,
    };
    let start = i + open.len();
    let rest = copy_range(x, start, x.len());
    let e = match find_from_exec(rest.as_slice(), close.as_slice(), 0) {
        Some(e) => e,
        None => return None,
    };
    Some(copy_range(x, start, start + e))
}

/// The view of an entry: path, size, ETag, modification time.
pub open spec fn entry_view(e: FileEntry) -> (Seq<char>, u64, Option<Seq<char>>, Option<i64>) {
    (
        e.path@,
        e.size,
        match e.etag {
            Some(t) => Some(t@),
            None => None,
        },
        e.mtime,
    )
}

/// What one `<Contents>` block of a listing says: the path relative to the
/// listed prefix (none for the prefix's own marker object) and the entry.
pub open spec fn spec_block_entry(block: Seq<char>, prefix_trim: Seq<char>) -> Option<
    (Seq<char>, (Seq<char>, u64, Option<Seq<char>>, Option<i64>)),
> {
    match spec_xml_value(block, "Key"@) {
        None => None,
        Some(key) => {
            let dir = prefix_trim + "/"@;
            if !starts_with(key, dir) && key == prefix_trim {
                None
            } else {
                let rel = if starts_with(key, dir) {
                    key.subrange(dir.len() as int, key.len() as int)
                } else {
                    key
                };
                let etag = match spec_xml_value(block, "ETag"@) {
                    Some(t) => Some(trim_quotes(t)),
                    None => None,
                };
                let size: u64 = match spec_xml_value(block, "Size"@) {
                    Some(s) => match parse_unsigned(s, u64::MAX as nat) {
                        Some(n) => n as u64,
                        None => 0,
                    },
                    None => 0,
                };
                let mtime = match spec_xml_value(block, "LastModified"@) {
                    Some(s) => rfc3339_seconds(s),
                    None => None,
                };
                Some((rel, (key, size, etag, mtime)))
            }
        },
    }
}

/// A listed object's size is the number its `<Size>` spells, for every size
/// a `u64` holds.
pub proof fn law_listed_size(block: Seq<char>, prefix_trim: Seq<char>, n: u64)
    requires
        spec_xml_value(block, "Size"@) == Some(decimal(n as nat)),
    ensures
        spec_block_entry(block, prefix_trim) matches Some((_, (_, size, _, _))) ==> size == n,
{
    lemma_decimal_spells(n as nat);
}

/// A HeadObject answer's size is the number its `Content-Length` spells, for
/// every size a `u64` holds.
pub proof fn law_head_size(
    e: FileEntry,
    key: Seq<char>,
    etag: Option<&str>,
    content_length: &str,
    last_modified: Option<&str>,
    n: u64,
)
    requires
        describes_head(e, key, etag, Some(content_length), last_modified),
        content_length@ == decimal(n as nat),
    ensures
        e.size == n,
{
    lemma_decimal_spells(n as nat);
}

/// The listing and a HeadObject answer agree on sizes: the same digits give
/// the same size, whatever they are.
pub proof fn law_listing_and_head_agree(
    block: Seq<char>,
    prefix_trim: Seq<char>,
    e: FileEntry,
    key: Seq<char>,
    etag: Option<&str>,
    content_length: &str,
    last_modified: Option<&str>,
)
    requires
        spec_xml_value(block, "Size"@) == Some(content_length@),
        describes_head(e, key, etag, Some(content_length), last_modified),
    ensures
        spec_block_entry(block, prefix_trim) matches Some((_, (_, size, _, _))) ==> size == e.size,
{
}

/// The pieces of `xml.split("<Contents>")` after the first.
pub open spec fn blocks_from(xml: Seq<char>, from: int) -> Seq<Seq<char>>
    decreases xml.len() + 1 - from,
{
    if from < 0 || from > xml.len() {
        Seq::empty()
    } else {
        match find_from(xml, "<Contents>"@, from) {
            Some(k) => if {
                proof {
                    lemma_find_from_bounds(xml, "<Contents>"@, from);
                }
                k >= from
            } && k + "<Contents>"@.len() > from {
                seq![xml.subrange(from, k)] + blocks_from(xml, k + "<Contents>"@.len())
            } else {
                Seq::empty()
            },
            None => seq![xml.subrange(from, xml.len() as int)],
        }
    }
}

pub open spec fn contents_blocks(xml: Seq<char>) -> Seq<Seq<char>> {
    match find_from(xml, "<Contents>"@, 0) {
        Some(k) => blocks_from(xml, k + "<Contents>"@.len()),
        None => Seq::empty(),
    }
}

/// The entries of a listing, block after block; a later block wins a path.
pub open spec fn listing_map(blocks: Seq<Seq<char>>, prefix_trim: Seq<char>) -> Map<
    Seq<char>,
    (Seq<char>, u64, Option<Seq<char>>, Option<i64>),
>
    decreases blocks.len(),
{
    if blocks.len() == 0 {
        Map::empty()
    } else {
        let m = listing_map(blocks.drop_last(), prefix_trim);
        match spec_block_entry(blocks.last(), prefix_trim) {
            Some((rel, e)) => m.insert(rel, e),
            None => m,
        }
    }
}

pub open spec fn spec_listing(xml: Seq<char>, prefix: Seq<char>) -> Map<
    Seq<char>,
    (Seq<char>, u64, Option<Seq<char>>, Option<i64>),
> {
    listing_map(contents_blocks(xml), trim_end_char(prefix, '/'))
}

/// The map `m` holds, by view, exactly the entries of `spec`.
pub open spec fn holds_entries(
    m: Map<Seq<char>, FileEntry>,
    spec: Map<Seq<char>, (Seq<char>, u64, Option<Seq<char>>, Option<i64>)>,
) -> bool {
    &&& m.dom() == spec.dom()
    &&& forall|k: Seq<char>| #[trigger] m.dom().contains(k) ==> entry_view(m[k]) == spec[k]
}

fn block_entry(block: &[char], prefix_trim: &[char]) -> (r: Option<(String, FileEntry)>)
    ensures
        r matches Some((rel, e)) ==> spec_block_entry(block@, prefix_trim@) == Some(
            (rel@, entry_view(e)),
        ),
        r is None ==> spec_block_entry(block@, prefix_trim@) is None,
{
    let key = match xml_value(block, "Key") {
        Some(k) => k,
        None => return None,
    };
    let dir = concat(prefix_trim, chars_of("/").as_slice());
    let under = matches_at_exec(key.as_slice(), dir.as_slice(), 0);
    let rel: Vec<char>;
    if under {
        rel = copy_range(key.as_slice(), dir.len(), key.len());
    } else {
        if key.len() == prefix_trim.len() && matches_at_exec(key.as_slice(), prefix_trim, 0) {
            assert(key@ =~= key@.subrange(0, prefix_trim@.len() as int));
            return None;
        }
        proof {
            if key@ == prefix_trim@ {
                assert(key@.subrange(0, prefix_trim@.len() as int) =~= key@);
            }
        }
        rel = copy_range(key.as_slice(), 0, key.len());
        assert(rel@ =~= key@);
    }
    let etag = match xml_value(block, "ETag") {
        Some(t) => {
            let a = trim_start_char_exec(t.as_slice(), '"');
            Some(string_of(trim_end_char_exec(a.as_slice(), '"').as_slice()))
        },
        None => None,
    };
    let size: u64 = match xml_value(block, "Size") {
        Some(s) => match parse_unsigned_exec(s.as_slice(), 0xFFFF_FFFF_FFFF_FFFF) {
            Some(n) => n,
            None => 0,
        },
        None => 0,
    };
    let mtime = match xml_value(block, "LastModified") {
        Some(s) => parse_rfc3339_seconds(string_of(s.as_slice()).as_str()),
        None => None,
    };
    let e = FileEntry { path: string_of(key.as_slice()), size, etag, mtime };
    Some((string_of(rel.as_slice()), e))
}

proof fn lemma_holds_insert(
    m: Map<Seq<char>, FileEntry>,
    spec: Map<Seq<char>, (Seq<char>, u64, Option<Seq<char>>, Option<i64>)>,
    k: Seq<char>,
    e: FileEntry,
)
    requires
        holds_entries(m, spec),
    ensures
        holds_entries(m.insert(k, e), spec.insert(k, entry_view(e))),
{
    assert(m.insert(k, e).dom() =~= spec.insert(k, entry_view(e)).dom());
}

/// The entries and the continuation token of a ListObjectsV2 page. Each
/// `<Contents>` block gives its `Key` (relative to `prefix`, without its trailing
/// `/`; the prefix's own marker is left out), `ETag` without quotes, `Size`
/// (0 where unreadable) and `LastModified`.
pub fn parse_list_xml(xml: &str, prefix: &str) -> (r: (PathMap<FileEntry>, Option<String>))
    ensures
        holds_entries(r.0.view(), spec_listing(xml@, prefix@)),
        r.1 matches Some(t) ==> spec_xml_value(xml@, "NextContinuationToken"@) == Some(t@),
        r.1 is None ==> spec_xml_value(xml@, "NextContinuationToken"@) is None,
{
    let x = chars_of(xml);
    let prefix_trim = trim_end_char_exec(chars_of(prefix).as_slice(), '/');
    let next_token = match xml_value(x.as_slice(), "NextContinuationToken") {
        Some(t) => Some(string_of(t.as_slice())),
        None => None,
    };
    let mut entries: PathMap<FileEntry> = PathMap::new();
    let marker = chars_of("<Contents>");
    let ghost all = contents_blocks(x@);
    let first = find_from_exec(x.as_slice(), marker.as_slice(), 0);
    assert(entries.view() =~= Map::<Seq<char>, FileEntry>::empty());
    assert(listing_map(Seq::<Seq<char>>::empty(), prefix_trim@) =~= Map::empty());
    proof {
        reveal_strlit("<Contents>");
    }
    let mut from: usize = match first {
        Some(k) => k + marker.len(),
        None => {
            assert(all =~= Seq::<Seq<char>>::empty());
            return (entries, next_token);
        },
    };
    let ghost done: Seq<Seq<char>> = Seq::empty();
    loop
        invariant
            from <= x@.len(),
            marker@ == "<Contents>"@,
            all == done + blocks_from(x@, from as int),
            all == contents_blocks(x@),
            holds_entries(entries.view(), listing_map(done, prefix_trim@)),
            marker@.len() > 0,
            x@ == xml@,
            prefix_trim@ == trim_end_char(prefix@, '/'),
            next_token matches Some(t) ==> spec_xml_value(xml@, "NextContinuationToken"@) == Some(
                t@,
            ),
            next_token is None ==> spec_xml_value(xml@, "NextContinuationToken"@) is None,
        decreases x@.len() + 1 - from,
    {
        let next = find_from_exec(x.as_slice(), marker.as_slice(), from);
        let end: usize = match next {
            Some(k) => k,
            None => x.len(),
        };
        let block = copy_range(x.as_slice(), from, end);
        let ghost bs = blocks_from(x@, from as int);
        assert(bs.len() > 0 && bs[0] == block@);
        let ghost new_done = done.push(block@);
        assert(new_done.drop_last() =~= done);
        match block_entry(block.as_slice(), prefix_trim.as_slice()) {
            Some((rel, e)) => {
                proof {
                    lemma_holds_insert(entries.view(), listing_map(done, prefix_trim@), rel@, e);
                }
                entries.insert(rel, e);
            },
            None => {},
        }
        proof {
            done = new_done;
        }
        match next {
            Some(k) => {
                assert(all =~= done + blocks_from(x@, k + marker@.len()));
                from = k + marker.len();
            },
            None => {
                assert(bs =~= seq![block@]);
                assert(all =~= done);
                return (entries, next_token);
            },
        }
    }
}

// ───────────────────────── object headers ─────────────────────────

/// `e` is the entry a HeadObject answer for `key` with these headers
/// describes: `ETag` without quotes, `Content-Length` (0 where missing or
/// unreadable), `Last-Modified`.
pub open spec fn describes_head(
    e: FileEntry,
    key: Seq<char>,
    etag: Option<&str>,
    content_length: Option<&str>,
    last_modified: Option<&str>,
) -> bool {
    &&& e.path@ == key
    &&& (e.etag matches Some(t) ==> etag matches Some(h) && t@ == trim_quotes(h@))
    &&& (e.etag is None ==> etag is None)
    &&& e.size == match content_length {
        Some(s) => match parse_unsigned(s@, u64::MAX as nat) {
            Some(n) => n as u64,
            None => 0,
        },
        None => 0,
    }
    &&& e.mtime == match last_modified {
        Some(s) => rfc2822_seconds(s@),
        None => None,
    }
}

/// The entry a HeadObject answer describes (see `describes_head`).
pub fn head_entry(
    key: &str,
    etag: Option<&str>,
    content_length: Option<&str>,
    last_modified: Option<&str>,
) -> (e: FileEntry)
    ensures
        describes_head(e, key@, etag, content_length, last_modified),
{
    let etag = match etag {
        Some(h) => Some(strip_quotes(h)),
        None => None,
    };
    let size: u64 = match content_length {
        Some(s) => match parse_unsigned_exec(chars_of(s).as_slice(), 0xFFFF_FFFF_FFFF_FFFF) {
            Some(n) => n,
            None => 0,
        },
        None => 0,
    };
    let mtime = match last_modified {
        Some(s) => parse_http_date(s),
        None => None,
    };
    FileEntry { path: owned(key), size, etag, mtime }
}

/// A status code reports success: it is in `200..=299`, as
/// `StatusCode::is_success` reads it.
pub open spec fn spec_is_success(status: u16) -> bool {
    200 <= status && status <= 299
}

/// Whether an HTTP status code reports success.
pub fn status_is_success(status: u16) -> (b: bool)
    ensures
        b == spec_is_success(status),
{
    200 <= status && status <= 299
}

/// What a HeadObject answer with this status code (`status_text` as the
/// status reads) says of the object `key`: 404 means there is none, any other
/// failure is the error `"HeadObject failed for <key>: <status>"`, and a
/// success describes it by its headers (see `head_entry`).
pub fn head_result(
    status: u16,
    status_text: &str,
    key: &str,
    etag: Option<&str>,
    content_length: Option<&str>,
    last_modified: Option<&str>,
) -> (r: Result<Option<FileEntry>, AppError>)
    ensures
        status == 404 ==> r matches Ok(None),
        status != 404 && !spec_is_success(status) ==> (r matches Err(AppError::S3(m)) && m@
            == "HeadObject failed for "@ + key@ + ": "@ + status_text@),
        status != 404 && spec_is_success(status) ==> (r matches Ok(Some(e)) && describes_head(
            e,
            key@,
            etag,
            content_length,
            last_modified,
        )),
{
    if status == 404 {
        return Ok(None);
    }
    if !status_is_success(status) {
        let a = concat(chars_of("HeadObject failed for ").as_slice(), chars_of(key).as_slice());
        let b = concat(a.as_slice(), chars_of(": ").as_slice());
        let c = concat(b.as_slice(), chars_of(status_text).as_slice());
        return Err(AppError::S3(string_of(c.as_slice())));
    }
    Ok(Some(head_entry(key, etag, content_length, last_modified)))
}

/// The ETag an upload answer carries, without quotes, empty when missing.
pub fn uploaded_etag(header: Option<&str>) -> (r: String)
    ensures
        header matches Some(h) ==> r@ == trim_quotes(h@),
        header is None ==> r@.len() == 0,
{
    match header {
        Some(h) => strip_quotes(h),
        None => string_of(Vec::<char>::new().as_slice()),
    }
}

/// The error of a failed S3 call: `"<operation> failed: <status> <body>"`,
/// or `"<operation> failed for <key>: <status> <body>"` for a call on one
/// object.
pub fn request_failed(operation: &str, key: Option<&str>, status: &str, body: &str) -> (e: AppError)
    ensures
        e matches AppError::S3(m) && m@ == operation@ + " failed"@ + match key {
            Some(k) => " for "@ + k@,
            None => Seq::empty(),
        } + ": "@ + status@ + " "@ + body@,
{
    let mut a = concat(chars_of(operation).as_slice(), chars_of(" failed").as_slice());
    match key {
        Some(k) => {
            a = concat(a.as_slice(), chars_of(" for ").as_slice());
            a = concat(a.as_slice(), chars_of(k).as_slice());
        },
        None => {
            assert(a@ =~= a@ + Seq::<char>::empty());
        },
    }
    let b = concat(a.as_slice(), chars_of(": ").as_slice());
    let c = concat(b.as_slice(), chars_of(status).as_slice());
    let d = concat(c.as_slice(), chars_of(" ").as_slice());
    AppError::S3(string_of(concat(d.as_slice(), chars_of(body).as_slice()).as_slice()))
}

} // verus!
