//! The cover cache's names: covers are stored as `<hash>.jpg` in the cache
//! directory, the hash being the XXH3-64 of the image data in sixteen hex
//! digits. Reading, resizing and writing the images is the application's part.

use vstd::prelude::*;

use crate::paths::{joined_path, path_ext, path_extension, path_join};
use crate::text::{copy_string, push_char, push_str, string_eq_str};

verus! {

/// Width and height of the cached thumbnails.
pub const THUMBNAIL_SIZE: u32 = 300;

/// The XXH3 64-bit hash of the data (seed 0, default secret).
pub uninterp spec fn xxh3(data: Seq<u8>) -> u64;

/// `xxhash_rust::xxh3::xxh3_64`. The hash is named, not stated.
#[verifier::external_body]
fn xxh3_hash(data: &[u8]) -> (r: u64)
    ensures
        r == xxh3(data@),
{
    xxhash_rust::xxh3::xxh3_64(data)
}

pub open spec fn hex_digit(d: nat) -> char {
    if d < 10 {
        (d + '0' as u32) as char
    } else {
        (d - 10 + 'a' as u32) as char
    }
}

/// The last `w` lowercase hexadecimal digits of `n`, zero-padded.
pub open spec fn hex_pad(n: nat, w: nat) -> Seq<char>
    decreases w,
{
    if w == 0 {
        Seq::empty()
    } else {
        hex_pad(n / 16, (w - 1) as nat).push(hex_digit(n % 16))
    }
}

fn push_hex_pad(s: &mut String, n: u64, w: u64)
    ensures
        final(s)@ == old(s)@ + hex_pad(n as nat, w as nat),
    decreases w,
{
    if w > 0 {
        push_hex_pad(s, n / 16, w - 1);
        let d = n % 16;
        let c = if d < 10 {
            ((d as u32) + ('0' as u32)) as u8 as char
        } else {
            ((d as u32) - 10 + ('a' as u32)) as u8 as char
        };
        assert(c == hex_digit((n % 16) as nat));
        push_char(s, c);
        assert(s@ =~= old(s)@ + hex_pad(n as nat, w as nat));
    } else {
        assert(s@ =~= old(s)@ + hex_pad(n as nat, w as nat));
    }
}

/// The cover cache: a directory of `<hash>.jpg` thumbnails.
#[derive(Debug)]
pub struct CoverCache {
    cache_dir: String,
}

impl CoverCache {
    pub closed spec fn dir(self) -> Seq<char> {
        self.cache_dir@
    }

    /// The cache at the given directory (which the caller has created).
    pub fn from_dir(cache_dir: String) -> (r: Self)
        ensures
            r.dir() == cache_dir@,
    {
        CoverCache { cache_dir }
    }

    /// The cache directory.
    pub fn cache_dir(&self) -> (r: &str)
        ensures
            r@ == self.dir(),
    {
        self.cache_dir.as_str()
    }

    /// The name of cover data: its XXH3-64 hash in sixteen lowercase hex digits.
    pub fn hash_cover(data: &[u8]) -> (r: String)
        ensures
            r@ == hex_pad(xxh3(data@) as nat, 16),
    {
        let h = xxh3_hash(data);
        let mut s = String::new();
        push_hex_pad(&mut s, h, 16);
        assert(s@ =~= hex_pad(h as nat, 16));
        s
    }

    /// Where the cover with the given hash is stored.
    pub fn get_cover_path(&self, hash: &str) -> (r: String)
        ensures
            r@ == joined_path(self.dir(), hash@ + ".jpg"@),
    {
        let mut name = String::new();
        push_str(&mut name, hash);
        push_str(&mut name, ".jpg");
        path_join(self.cache_dir.as_str(), name.as_str())
    }
}

/// How many of the directory entries are cached covers (extension exactly `jpg`).
pub open spec fn count_jpg(names: Seq<Seq<char>>) -> nat
    decreases names.len(),
{
    if names.len() == 0 {
        0
    } else {
        count_jpg(names.drop_last()) + if path_ext(names.last()) == Some("jpg"@) { 1nat } else { 0nat }
    }
}

/// How many of the given entry paths are cached covers.
pub fn count_cached_covers(paths: &Vec<String>) -> (r: usize)
    ensures
        r == count_jpg(paths@.map_values(|s: String| s@)),
{
    let ghost pv = paths@.map_values(|s: String| s@);
    let mut n: usize = 0;
    let mut i: usize = 0;
    while i < paths.len()
        invariant
            i <= paths.len(),
            pv == paths@.map_values(|s: String| s@),
            n == count_jpg(pv.take(i as int)),
            n <= i,
        decreases paths.len() - i,
    {
        assert(pv.take(i + 1).drop_last() =~= pv.take(i as int));
        assert(pv.take(i + 1).last() == paths@[i as int]@);
        match path_extension(paths[i].as_str()) {
            Some(e) => {
                if string_eq_str(&e, "jpg") {
                    n += 1;
                }
            },
            None => {},
        }
        i += 1;
    }
    assert(pv.take(paths.len() as int) =~= pv);
    n
}

} // verus!
