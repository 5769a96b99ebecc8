use syncora::s3sync::client::{
    extract_xml_value, head_entry, head_result, list_query, parse_list_xml, request_failed,
    status_is_success, strip_quotes, uploaded_etag, S3Client,
};
use syncora::s3sync::sigv4::{
    canonical_query, derive_signing_key, method_str, payload_hash, uri_encode, url_query, HttpMethod,
};
use syncora::error::AppError;

const EMPTY_SHA256: &str = "e3b0c44298fc1c149afbf4c8996fb92427ae41e4649b934ca495991b7852b855";

/// 2024-01-02T03:04:05Z.
const STAMP_SECS: i64 = 1704164645;

fn hex(bytes: &[u8]) -> String {
    bytes.iter().map(|b| format!("{:02x}", b)).collect()
}

fn pairs(items: &[(&str, &str)]) -> Vec<(String, String)> {
    items.iter().map(|(k, v)| (k.to_string(), v.to_string())).collect()
}

#[test]
fn payload_hashes_match_known_vectors() {
    assert_eq!(payload_hash(b""), EMPTY_SHA256);
    assert_eq!(payload_hash(b"abc"), "ba7816bf8f01cfea414140de5dae2223b00361a396177a9cb410ff61f20015ad");
    assert_eq!(payload_hash(b"hello"), "2cf24dba5fb0a30e26e83b2ac5b9e29e1b161e5c1fa7425e73043362938b9824");
}

#[test]
fn signing_key_matches_the_aws_example() {
    let k = derive_signing_key("wJalrXUtnFEMI/K7MDENG+bPxRfiCYEXAMPLEKEY", "20120215", "us-east-1", "iam");
    assert_eq!(hex(&k), "f4780e2d9f65fa895f9c67b32ce1baf0b0d8a43505a000a1a9e090d414db404d");
}

#[test]
fn uri_encoding_keeps_only_unreserved_characters() {
    assert_eq!(uri_encode("a b/c~d", false), "a%20b/c~d");
    assert_eq!(uri_encode("a b/c~d", true), "a%20b%2Fc~d");
    assert_eq!(uri_encode("Az09-_.", true), "Az09-_.");
    assert_eq!(uri_encode("é", false), "%C3%A9");
    assert_eq!(uri_encode("a+b=c&d", true), "a%2Bb%3Dc%26d");
    assert_eq!(uri_encode("\n", false), "%0A");
}

#[test]
fn query_strings() {
    let q = pairs(&[("prefix", "docs/"), ("list-type", "2"), ("max-keys", "1000")]);
    assert_eq!(canonical_query(&q), "list-type=2&max-keys=1000&prefix=docs%2F");
    assert_eq!(url_query(&q), "prefix=docs%2F&list-type=2&max-keys=1000");
    assert_eq!(canonical_query(&Vec::new()), "");
    let q = pairs(&[("b", "2"), ("a", "z"), ("a", "y")]);
    assert_eq!(canonical_query(&q), "a=y&a=z&b=2");
}

#[test]
fn listing_query_pages() {
    assert_eq!(
        list_query("docs/", None),
        pairs(&[("list-type", "2"), ("prefix", "docs/"), ("max-keys", "1000")])
    );
    assert_eq!(
        list_query("docs/", Some("tok")),
        pairs(&[("list-type", "2"), ("prefix", "docs/"), ("max-keys", "1000"), ("continuation-token", "tok")])
    );
}

#[test]
fn client_paths() {
    let c = S3Client::new("https://acc.r2.cloudflarestorage.com//", "AKID", "SECRET", "bkt");
    assert_eq!(c.endpoint, "https://acc.r2.cloudflarestorage.com");
    assert_eq!(c.host(), "acc.r2.cloudflarestorage.com");
    assert_eq!(c.bucket_path(), "/bkt");
    assert_eq!(c.object_path("docs/a.txt"), "/bkt/docs/a.txt");
    assert_eq!(c.url("/bkt"), "https://acc.r2.cloudflarestorage.com/bkt");
    let h = S3Client::new("http://localhost:9000", "k", "s", "b");
    assert_eq!(h.host(), "localhost:9000");
    assert_eq!(method_str(HttpMethod::Head), "HEAD");
}

#[test]
fn signed_listing_request() {
    let c = S3Client::new("https://acc.r2.cloudflarestorage.com", "AKID", "SECRET", "bkt");
    let (req, sig) = c.sign_request(
        HttpMethod::Get,
        "/bkt",
        list_query("docs/", None),
        None,
        EMPTY_SHA256,
        STAMP_SECS,
    );
    assert_eq!(req.host, "acc.r2.cloudflarestorage.com");
    assert_eq!(req.amz_date, "20240102T030405Z");
    assert_eq!(
        sig.canonical_request,
        format!(
            "GET\n/bkt\nlist-type=2&max-keys=1000&prefix=docs%2F\nhost:acc.r2.cloudflarestorage.com\n\
             x-amz-content-sha256:{}\nx-amz-date:20240102T030405Z\n\nhost;x-amz-content-sha256;x-amz-date\n{}",
            EMPTY_SHA256, EMPTY_SHA256
        )
    );
    assert_eq!(
        sig.string_to_sign,
        "AWS4-HMAC-SHA256\n20240102T030405Z\n20240102/auto/s3/aws4_request\n\
         51202642792fc47bed78f22b2a60fc556d5c498774e506f39a5b273f4d1835db"
    );
    assert_eq!(sig.signed_headers, "host;x-amz-content-sha256;x-amz-date");
    assert_eq!(
        sig.authorization,
        "AWS4-HMAC-SHA256 Credential=AKID/20240102/auto/s3/aws4_request, \
         SignedHeaders=host;x-amz-content-sha256;x-amz-date, \
         Signature=32b8eabec64ba2e18861fce7793faede4b37ace36eba0d8d30c6692cae18684a"
    );
}

#[test]
fn signed_upload_request() {
    let c = S3Client::new("https://acc.r2.cloudflarestorage.com", "AKID", "SECRET", "bkt");
    let body_hash = payload_hash(b"hello");
    let (_, sig) = c.sign_request(
        HttpMethod::Put,
        "/bkt/docs/a b.txt",
        Vec::new(),
        Some("text/plain".to_string()),
        &body_hash,
        STAMP_SECS,
    );
    assert!(sig.canonical_request.starts_with(
        "PUT\n/bkt/docs/a%20b.txt\n\ncontent-type:text/plain\nhost:acc.r2.cloudflarestorage.com\n"
    ));
    assert_eq!(sig.signed_headers, "content-type;host;x-amz-content-sha256;x-amz-date");
    assert!(sig.authorization.ends_with(
        "Signature=58c2054195eb1d3f2f725030aaa859539359281dce4772e1f9265151e6b4605f"
    ));
}

#[test]
fn xml_values() {
    assert_eq!(extract_xml_value("<a><Key>x/y</Key></a>", "Key"), Some("x/y".to_string()));
    assert_eq!(extract_xml_value("<Key>unclosed", "Key"), None);
    assert_eq!(extract_xml_value("<Other>v</Other>", "Key"), None);
    assert_eq!(extract_xml_value("<Key></Key>", "Key"), Some(String::new()));
}

#[test]
fn listing_answer_is_read_relative_to_the_prefix() {
    let xml = "<ListBucketResult>\
        <Contents><Key>docs/a.txt</Key><ETag>\"e1\"</ETag><Size>12</Size><LastModified>2024-01-02T03:04:05.000Z</LastModified></Contents>\
        <Contents><Key>docs</Key><Size>0</Size></Contents>\
        <Contents><Key>other/b.txt</Key><Size>oops</Size></Contents>\
        <Contents><Size>3</Size></Contents>\
        <NextContinuationToken>next</NextContinuationToken>\
        </ListBucketResult>";
    let (entries, token) = parse_list_xml(xml, "docs/");
    assert_eq!(token, Some("next".to_string()));
    assert_eq!(entries.len(), 2);
    let a = entries.get(&"a.txt".to_string()).unwrap();
    assert_eq!(a.path, "docs/a.txt");
    assert_eq!(a.size, 12);
    assert_eq!(a.etag, Some("e1".to_string()));
    assert_eq!(a.mtime, Some(1704164645));
    let b = entries.get(&"other/b.txt".to_string()).unwrap();
    assert_eq!(b.size, 0);
    assert_eq!(b.etag, None);
    assert_eq!(b.mtime, None);
    let (entries, token) = parse_list_xml("<ListBucketResult></ListBucketResult>", "docs");
    assert_eq!(entries.len(), 0);
    assert_eq!(token, None);
}

#[test]
fn object_headers() {
    let e = head_entry("k", Some("\"abc\""), Some("42"), Some("Wed, 21 Oct 2015 07:28:00 GMT"));
    assert_eq!(e.path, "k");
    assert_eq!(e.etag, Some("abc".to_string()));
    assert_eq!(e.size, 42);
    assert_eq!(e.mtime, Some(1445412480));
    let e = head_entry("k", None, Some("x"), None);
    assert_eq!(e.size, 0);
    assert_eq!(e.etag, None);
    assert_eq!(e.mtime, None);
    assert_eq!(uploaded_etag(Some("\"tag\"")), "tag");
    assert_eq!(uploaded_etag(None), "");
    assert_eq!(strip_quotes("\"\"x\"\""), "x");
}

#[test]
fn time_stamps() {
    let c = S3Client::new("https://h", "k", "s", "b");
    let (req, _) = c.sign_request(HttpMethod::Get, "/b", Vec::new(), None, EMPTY_SHA256, 0);
    assert_eq!(req.amz_date, "19700101T000000Z");
    let (_, sig) = c.sign_request(HttpMethod::Get, "/b", Vec::new(), None, EMPTY_SHA256, STAMP_SECS);
    assert!(sig.string_to_sign.starts_with("AWS4-HMAC-SHA256\n20240102T030405Z\n20240102/auto/s3/aws4_request\n"));
    let xml = "<Contents><Key>a</Key><LastModified>2024-01-02T03:04:05Z</LastModified></Contents>\
               <Contents><Key>b</Key><LastModified>yesterday</LastModified></Contents>";
    let (entries, _) = parse_list_xml(xml, "");
    assert_eq!(entries.get(&"a".to_string()).unwrap().mtime, Some(STAMP_SECS));
    assert_eq!(entries.get(&"b".to_string()).unwrap().mtime, None);
    assert_eq!(head_entry("k", None, None, Some("not a date")).mtime, None);
}

#[test]
fn failed_calls_carry_status_and_body() {
    match request_failed("ListObjectsV2", None, "403 Forbidden", "<Error/>") {
        AppError::S3(m) => assert_eq!(m, "ListObjectsV2 failed: 403 Forbidden <Error/>"),
        _ => panic!("expected an S3 error"),
    }
    match request_failed("PutObject", Some("docs/a.txt"), "500 Internal Server Error", "") {
        AppError::S3(m) => assert_eq!(m, "PutObject failed for docs/a.txt: 500 Internal Server Error "),
        _ => panic!("expected an S3 error"),
    }
}

fn percent_decode(s: &str) -> Vec<u8> {
    let b = s.as_bytes();
    let mut out = Vec::new();
    let mut i = 0;
    while i < b.len() {
        if b[i] == b'%' {
            out.push(u8::from_str_radix(&s[i + 1..i + 3], 16).unwrap());
            i += 3;
        } else {
            out.push(b[i]);
            i += 1;
        }
    }
    out
}

#[test]
fn decoding_an_encoding_gives_the_bytes_back() {
    for text in ["a b/c~d", "päth/ü%20x", "100%", "", "!*'();:@&=+$,/?#[]"] {
        assert_eq!(percent_decode(&uri_encode(text, true)), text.as_bytes().to_vec());
        assert_eq!(percent_decode(&uri_encode(text, false)), text.as_bytes().to_vec());
    }
}

#[test]
fn status_codes_and_head_answers() {
    assert!(status_is_success(200));
    assert!(status_is_success(204));
    assert!(status_is_success(299));
    assert!(!status_is_success(199));
    assert!(!status_is_success(300));
    assert!(!status_is_success(404));
    assert!(matches!(head_result(404, "404 Not Found", "k", None, None, None), Ok(None)));
    match head_result(403, "403 Forbidden", "a/b", None, None, None) {
        Err(AppError::S3(m)) => assert_eq!(m, "HeadObject failed for a/b: 403 Forbidden"),
        _ => panic!("expected the error"),
    }
    let e = head_result(200, "200 OK", "k", Some("\"abc\""), Some("42"), None).unwrap().unwrap();
    assert_eq!(e.path, "k");
    assert_eq!(e.etag, Some("abc".to_string()));
    assert_eq!(e.size, 42);
}
