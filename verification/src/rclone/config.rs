//! The rclone configuration of the bucket remote.
use vstd::prelude::*;

use crate::text::{chars_of, concat, string_of, owned};

verus! {

pub open spec fn spec_config(endpoint: Seq<char>, access_key: Seq<char>, secret: Seq<char>) -> Seq<
    char,
> {
    "[r2]\ntype = s3\nprovider = Cloudflare\naccess_key_id = "@ + access_key
        + "\nsecret_access_key = "@ + secret + "\nendpoint = "@ + endpoint
        + "\nacl = private\nno_check_bucket = true\n"@
}

/// Content of the rclone configuration file for the `r2` remote.
pub fn generate_config(endpoint: &str, access_key: &str, secret: &str) -> (r: String)
    ensures
        r@ == spec_config(endpoint@, access_key@, secret@),
{
    let a = chars_of("[r2]\ntype = s3\nprovider = Cloudflare\naccess_key_id = ");
    let b = concat(a.as_slice(), chars_of(access_key).as_slice());
    let c = concat(b.as_slice(), chars_of("\nsecret_access_key = ").as_slice());
    let d = concat(c.as_slice(), chars_of(secret).as_slice());
    let e = concat(d.as_slice(), chars_of("\nendpoint = ").as_slice());
    let f = concat(e.as_slice(), chars_of(endpoint).as_slice());
    let g = concat(f.as_slice(), chars_of("\nacl = private\nno_check_bucket = true\n").as_slice());
    string_of(g.as_slice())
}

/// Name of the configuration file inside the application data directory.
pub fn config_file_name() -> (r: String)
    ensures
        r@ == "rclone.conf"@,
{
    owned("rclone.conf")
}

} // verus!
