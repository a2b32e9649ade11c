//! The library scanner's decisions: which files to take, how a file that
//! failed to read is classified, and the partial hash that identifies a file.
//! Walking directories and reading files is the application's part.

use vstd::prelude::*;

use crate::import::cover::{hex_pad, xxh3};
use crate::import::progress::SkipReason;
use crate::import::{is_audio_file, is_audio_path};
use crate::paths::{path_ext, path_extension};
use crate::text::{chars_of, push_char, string_chars};

verus! {

/// Scanner settings.
#[derive(Debug, Clone)]
pub struct ScanConfig {
    /// Whether to compute file hashes for deduplication.
    pub compute_hash: bool,
    /// Whether to extract and cache cover art.
    pub extract_covers: bool,
    /// Whether to fill missing artist and title from file names.
    pub smart_parsing: bool,
    /// How deep to descend (`None`: no limit).
    pub max_depth: Option<usize>,
    /// Extensions to take (empty: every supported audio format).
    pub extensions: Vec<String>,
}

impl Default for ScanConfig {
    fn default() -> (r: Self)
        ensures
            r.compute_hash && r.extract_covers && r.smart_parsing,
            r.max_depth is None,
            r.extensions@.len() == 0,
    {
        ScanConfig {
            compute_hash: true,
            extract_covers: true,
            smart_parsing: true,
            max_depth: None,
            extensions: Vec::new(),
        }
    }
}

/// `c` with ASCII letters lowercased.
pub open spec fn ascii_lower(c: char) -> char {
    if 'A' <= c && c <= 'Z' {
        ((c as u32) + 32) as char
    } else {
        c
    }
}

/// `str::eq_ignore_ascii_case`: same length, and equal characters after
/// lowercasing ASCII letters.
pub open spec fn eq_ignore_ascii_case(a: Seq<char>, b: Seq<char>) -> bool {
    a.len() == b.len() && forall|i: int| 0 <= i < a.len() ==> ascii_lower(#[trigger] a[i]) == ascii_lower(b[i])
}

fn ascii_lower_exec(c: char) -> (r: char)
    ensures
        r == ascii_lower(c),
{
    if 'A' <= c && c <= 'Z' {
        ((c as u32) + 32) as u8 as char
    } else {
        c
    }
}

fn eq_ignore_ascii_case_exec(a: &Vec<char>, b: &Vec<char>) -> (r: bool)
    ensures
        r == eq_ignore_ascii_case(a@, b@),
{
    if a.len() != b.len() {
        return false;
    }
    let mut i: usize = 0;
    while i < a.len()
        invariant
            i <= a.len(),
            a.len() == b.len(),
            forall|j: int| 0 <= j < i ==> ascii_lower(#[trigger] a@[j]) == ascii_lower(b@[j]),
        decreases a.len() - i,
    {
        if ascii_lower_exec(a[i]) != ascii_lower_exec(b[i]) {
            return false;
        }
        i += 1;
    }
    true
}

/// Whether the scanner takes a file: its extension is one of the configured
/// ones (ignoring ASCII case), or, with none configured, a supported audio format.
pub open spec fn takes_file(path: Seq<char>, extensions: Seq<Seq<char>>) -> bool {
    if extensions.len() > 0 {
        match path_ext(path) {
            Some(e) => exists|k: int| 0 <= k < extensions.len() && eq_ignore_ascii_case(#[trigger] extensions[k], e),
            None => false,
        }
    } else {
        is_audio_path(path)
    }
}

/// Whether the scanner takes the file at `path`.
pub fn accepts_file(path: &str, config: &ScanConfig) -> (r: bool)
    ensures
        r == takes_file(path@, config.extensions@.map_values(|s: String| s@)),
{
    let ghost ev = config.extensions@.map_values(|s: String| s@);
    if config.extensions.len() > 0 {
        match path_extension(path) {
            Some(e) => {
                let ec = string_chars(&e);
                let mut k: usize = 0;
                while k < config.extensions.len()
                    invariant
                        k <= config.extensions.len(),
                        ev == config.extensions@.map_values(|s: String| s@),
                        ec@ == e@,
                        path_ext(path@) == Some(e@),
                        forall|j: int| 0 <= j < k ==> !eq_ignore_ascii_case(#[trigger] ev[j], e@),
                    decreases config.extensions.len() - k,
                {
                    let x = string_chars(&config.extensions[k]);
                    assert(ev[k as int] == x@);
                    if eq_ignore_ascii_case_exec(&x, &ec) {
                        return true;
                    }
                    k += 1;
                }
                false
            },
            None => false,
        }
    } else {
        is_audio_file(path)
    }
}

/// Whether the first bytes of a file are those of a known audio container:
/// FLAC, ID3, an MPEG frame sync, Ogg, RIFF/WAVE, or an MP4 `ftyp` box.
pub open spec fn known_audio_header(b: Seq<u8>) -> bool {
    (b.len() >= 4 && b[0] == 0x66 && b[1] == 0x4C && b[2] == 0x61 && b[3] == 0x43)
        || (b.len() >= 3 && b[0] == 0x49 && b[1] == 0x44 && b[2] == 0x33)
        || (b.len() >= 2 && b[0] == 0xFF && (b[1] == 0xFB || b[1] == 0xFA || b[1] == 0xF3 || b[1] == 0xF2))
        || (b.len() >= 4 && b[0] == 0x4F && b[1] == 0x67 && b[2] == 0x67 && b[3] == 0x53)
        || (b.len() >= 12 && b[0] == 0x52 && b[1] == 0x49 && b[2] == 0x46 && b[3] == 0x46 && b[8] == 0x57
            && b[9] == 0x41 && b[10] == 0x56 && b[11] == 0x45)
        || (b.len() >= 8 && b[4] == 0x66 && b[5] == 0x74 && b[6] == 0x79 && b[7] == 0x70)
}

/// Whether the header bytes (the first up to 64 bytes of a file) are those
/// of a known audio container.
pub fn is_known_audio_header(b: &[u8]) -> (r: bool)
    ensures
        r == known_audio_header(b@),
{
    let n = b.len();
    (n >= 4 && b[0] == 0x66 && b[1] == 0x4C && b[2] == 0x61 && b[3] == 0x43)
        || (n >= 3 && b[0] == 0x49 && b[1] == 0x44 && b[2] == 0x33)
        || (n >= 2 && b[0] == 0xFF && (b[1] == 0xFB || b[1] == 0xFA || b[1] == 0xF3 || b[1] == 0xF2))
        || (n >= 4 && b[0] == 0x4F && b[1] == 0x67 && b[2] == 0x67 && b[3] == 0x53)
        || (n >= 12 && b[0] == 0x52 && b[1] == 0x49 && b[2] == 0x46 && b[3] == 0x46 && b[8] == 0x57 && b[9]
            == 0x41 && b[10] == 0x56 && b[11] == 0x45)
        || (n >= 8 && b[4] == 0x66 && b[5] == 0x74 && b[6] == 0x79 && b[7] == 0x70)
}

/// Why a file whose metadata could not be read is skipped: corrupted when
/// its header is a known audio one, not an audio file when only its
/// extension says audio, and otherwise the reader's error.
pub fn classify_metadata_error(has_known_header: bool, path: &str, message: String) -> (r: SkipReason)
    ensures
        has_known_header ==> r == SkipReason::Corrupted,
        !has_known_header && is_audio_path(path@) ==> r == SkipReason::NotAudioFile,
        !has_known_header && !is_audio_path(path@) ==> r == SkipReason::MetadataError(message),
{
    if has_known_header {
        SkipReason::Corrupted
    } else if is_audio_file(path) {
        SkipReason::NotAudioFile
    } else {
        SkipReason::MetadataError(message)
    }
}

/// The little-endian bytes of `n`.
pub open spec fn le_bytes(n: u64) -> Seq<u8> {
    Seq::new(8, |i: int| ((n as nat / pow256(i)) % 256) as u8)
}

pub open spec fn pow256(i: int) -> nat
    decreases i,
{
    if i <= 0 {
        1
    } else {
        256 * pow256(i - 1)
    }
}

/// Bytes read from the start of a file for its partial hash: at most 64 KiB.
pub open spec fn first_chunk_len(file_size: u64) -> u64 {
    if file_size < 65536 { file_size } else { 65536 }
}

/// Whether the last 64 KiB of a file go into its partial hash too (files over 128 KiB).
pub open spec fn has_last_chunk(file_size: u64) -> bool {
    file_size > 131072
}

/// How much of a file its partial hash reads: the length of the first chunk,
/// and whether the last 64 KiB are read as well.
pub fn partial_hash_plan(file_size: u64) -> (r: (u64, bool))
    ensures
        r == (first_chunk_len(file_size), has_last_chunk(file_size)),
{
    (if file_size < 65536 { file_size } else { 65536 }, file_size > 131072)
}

/// The partial hash of a file: XXH3-64 of its size (little-endian), its
/// first chunk and, for large files, its last 64 KiB, in sixteen hex digits.
pub fn partial_hash(file_size: u64, first: &[u8], last: Option<&[u8]>) -> (r: String)
    ensures
        r@ == hex_pad(
            xxh3(
                le_bytes(file_size) + first@ + match last {
                    Some(l) => l@,
                    None => Seq::empty(),
                },
            ) as nat,
            16,
        ),
{
    let mut data: Vec<u8> = Vec::new();
    let mut k: u64 = 0;
    let mut n = file_size;
    assert(pow256(0) == 1);
    while k < 8
        invariant
            k <= 8,
            data@.len() == k,
            n as nat == file_size as nat / pow256(k as int),
            forall|j: int| 0 <= j < k ==> #[trigger] data@[j] == ((file_size as nat / pow256(j)) % 256) as u8,
        decreases 8 - k,
    {
        proof {
            lemma_div_step(file_size as nat, k as int);
        }
        data.push((n % 256) as u8);
        n = n / 256;
        k += 1;
    }
    assert(data@ =~= le_bytes(file_size));
    let mut i: usize = 0;
    let ghost d0 = data@;
    while i < first.len()
        invariant
            i <= first.len(),
            data@ == d0 + first@.take(i as int),
        decreases first.len() - i,
    {
        data.push(first[i]);
        assert(data@ =~= d0 + first@.take(i + 1));
        i += 1;
    }
    assert(first@.take(first.len() as int) =~= first@);
    let ghost d1 = data@;
    match last {
        Some(l) => {
            let mut j: usize = 0;
            while j < l.len()
                invariant
                    j <= l.len(),
                    data@ == d1 + l@.take(j as int),
                decreases l.len() - j,
            {
                data.push(l[j]);
                assert(data@ =~= d1 + l@.take(j + 1));
                j += 1;
            }
            assert(l@.take(l.len() as int) =~= l@);
        },
        None => {
            assert(data@ =~= d1 + Seq::<u8>::empty());
        },
    }
    crate::import::cover::CoverCache::hash_cover(data.as_slice())
}

proof fn lemma_div_step(x: nat, k: int)
    requires
        0 <= k,
    ensures
        x / pow256(k + 1) == (x / pow256(k)) / 256,
        pow256(k) > 0,
{
    lemma_pow256_pos(k);
    assert(pow256(k + 1) == 256 * pow256(k));
    vstd::arithmetic::div_mod::lemma_div_denominator(x as int, pow256(k) as int, 256);
    assert(pow256(k) * 256 == 256 * pow256(k)) by (nonlinear_arith);
}

proof fn lemma_pow256_pos(k: int)
    ensures
        pow256(k) > 0,
    decreases k,
{
    if k > 0 {
        lemma_pow256_pos(k - 1);
    }
}

} // verus!
