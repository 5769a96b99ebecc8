//! The engine's access to the synced folder. On Android it goes through the
//! storage access framework, which the engine cannot use yet: there every
//! operation fails with an `S3` error that says so. The relative keys of
//! local files are written with `/` on every platform.
use vstd::prelude::*;

use crate::error::AppError;
use crate::pathmap::PathMap;
use crate::s3sync::types::FileEntry;
use crate::text::{chars_of, string_of, owned};

verus! {

/// The key of a file from its path relative to the folder: Windows
/// separators become `/`.
pub fn relative_key(rel: &str) -> (k: String)
    ensures
        k@ == rel@.map_values(|c: char| if c == '\\' { '/' } else { c }),
{
    let cs = chars_of(rel);
    let mut out: Vec<char> = Vec::new();
    let mut i: usize = 0;
    while i < cs.len()
        invariant
            i <= cs@.len(),
            cs@ == rel@,
            out@ == cs@.take(i as int).map_values(|c: char| if c == '\\' { '/' } else { c }),
        decreases cs.len() - i,
    {
        let c = cs[i];
        out.push(if c == '\\' { '/' } else { c });
        assert(cs@.take(i + 1) =~= cs@.take(i as int).push(c));
        assert(out@ =~= cs@.take(i + 1).map_values(|c: char| if c == '\\' { '/' } else { c }));
        i += 1;
    }
    assert(cs@.take(cs@.len() as int) =~= cs@);
    string_of(out.as_slice())
}

fn unavailable(what: &str) -> (e: AppError)
    ensures
        e matches AppError::S3(m) && m@ == what@,
{
    AppError::S3(owned(what))
}

/// Listing the folder's files.
pub fn walk_local_dir(_root: &str) -> (r: Result<PathMap<FileEntry>, AppError>)
    ensures
        r matches Err(AppError::S3(m)) && m@ == "SAF directory walk not yet implemented for Android"@,
{
    Err(unavailable("SAF directory walk not yet implemented for Android"))
}

/// Reading a file.
pub fn read_file(_path: &str) -> (r: Result<Vec<u8>, AppError>)
    ensures
        r matches Err(AppError::S3(m)) && m@ == "SAF file read not yet implemented for Android"@,
{
    Err(unavailable("SAF file read not yet implemented for Android"))
}

/// Writing a file.
pub fn write_file(_path: &str, _data: &[u8]) -> (r: Result<(), AppError>)
    ensures
        r matches Err(AppError::S3(m)) && m@ == "SAF file write not yet implemented for Android"@,
{
    Err(unavailable("SAF file write not yet implemented for Android"))
}

/// Deleting a file.
pub fn delete_file(_path: &str) -> (r: Result<(), AppError>)
    ensures
        r matches Err(AppError::S3(m)) && m@ == "SAF file delete not yet implemented for Android"@,
{
    Err(unavailable("SAF file delete not yet implemented for Android"))
}

} // verus!
