//! Installing a game from the content network: which addresses are asked for and
//! in what portions, what a manifest says, what becomes of each file, and how
//! its slices are unpacked.
//!
//! A product's manifest lists its files, and for each file the slices that make
//! it up. A slice is fetched by the hash of its packed bytes.
use vstd::prelude::*;

use crate::codec::{from_utf8_lossy, hex_text, hex_upper, of_hex_pair, pair_value, utf8_lossy};
use crate::path::{extended, join, under, with_extension};
use crate::retry::Retry;
use crate::text::{
    chars_of, decimal, decimal_of, ends, flag, flag_of, law_text_around_another, lemma_texts_push,
    lower_ascii, occurs, opt_text, pairs, quote, quoted, replace, replaced, signed, signed_of,
    texts, to_lower_ascii,
};

verus! {

// ---------------------------------------------------------------------------
// Where a slice is found
// ---------------------------------------------------------------------------

/// The digits that name the buckets of slices.
pub open spec fn bucket_digit(n: int) -> char {
    if n < 10 {
        (48 + n) as char
    } else {
        (87 + n) as char
    }
}

/// The character at `i`, and a zero where there is none.
pub open spec fn char_or_zero(s: Seq<char>, i: int) -> char {
    if i < s.len() {
        s[i]
    } else {
        '0'
    }
}

/// The bucket of a slice: the second digit of its hash and, for an odd first
/// digit, sixteen more. What is no hexadecimal number counts as zero.
pub open spec fn bucket(hash: Seq<char>) -> char {
    let swapped = match pair_value(char_or_zero(hash, 1), char_or_zero(hash, 0)) {
        Some(v) => v as int,
        None => 0,
    };
    bucket_digit(swapped / 16 + (if swapped % 2 == 0 {
        0int
    } else {
        16int
    }))
}

/// The bucket of the slice with this hash, in upper case hexadecimal digits.
pub fn hash_path_char(hash_upper: &str) -> (c: char)
    ensures
        c == bucket(hash_upper@),
{
    let v = chars_of(hash_upper);
    let first = if v.len() > 0 {
        v[0]
    } else {
        '0'
    };
    let second = if v.len() > 1 {
        v[1]
    } else {
        '0'
    };
    let reversed: u8 = match of_hex_pair(second, first) {
        Some(x) => x,
        None => 0,
    };
    let half: u8 = if reversed % 2 == 0 {
        0
    } else {
        16
    };
    let n: u8 = reversed / 16 + half;
    if n < 10 {
        (48 + n) as char
    } else {
        (87 + n) as char
    }
}

/// How the slices of a product are laid out: newer titles in buckets, older ones
/// in one directory.
#[derive(Clone, Copy, Debug, PartialEq, Eq, Structural)]
pub enum SliceLayout {
    V3Bucket,
    Flat,
}

/// The path of the slice with this hash, below the product's root.
pub open spec fn slice_place(layout: SliceLayout, hash: Seq<char>) -> Seq<char> {
    match layout {
        SliceLayout::V3Bucket => "slices_v3/"@ + seq![bucket(hash)] + "/"@ + hash,
        SliceLayout::Flat => "slices/"@ + hash,
    }
}

/// The path of the slice with this hash, below the product's root.
pub fn slice_path(layout: SliceLayout, hash_upper: &str) -> (r: String)
    ensures
        r@ == slice_place(layout, hash_upper@),
{
    match layout {
        SliceLayout::V3Bucket => {
            let mut r = "slices_v3/".to_owned();
            r.push(hash_path_char(hash_upper));
            r.append("/");
            r.append(hash_upper);
            assert(r@ == slice_place(layout, hash_upper@));
            r
        },
        SliceLayout::Flat => {
            let mut r = "slices/".to_owned();
            r.append(hash_upper);
            r
        },
    }
}

/// There are thirty-two buckets, named by the digits and the letters up to `v`.
pub proof fn law_bucket_is_a_digit(hash: Seq<char>)
    ensures
        ('0' <= bucket(hash) && bucket(hash) <= '9') || ('a' <= bucket(hash) && bucket(hash)
            <= 'v'),
{
}

/// Slices with different hashes have different paths.
pub proof fn law_slice_paths_tell_hashes_apart(layout: SliceLayout, a: Seq<char>, b: Seq<char>)
    ensures
        slice_place(layout, a) == slice_place(layout, b) <==> a == b,
{
    reveal_strlit("slices_v3/");
    reveal_strlit("slices/");
    reveal_strlit("/");
    let n: int = match layout {
        SliceLayout::V3Bucket => 12,
        SliceLayout::Flat => 7,
    };
    assert(slice_place(layout, a).skip(n) =~= a);
    assert(slice_place(layout, b).skip(n) =~= b);
}

/// The path of a product's manifest.
pub fn manifest_path(manifest_id: &str) -> (r: String)
    ensures
        r@ == "manifests/"@ + manifest_id@ + ".manifest"@,
{
    let mut r = "manifests/".to_owned();
    r.append(manifest_id);
    r.append(".manifest");
    r
}

// ---------------------------------------------------------------------------
// Unpacking
// ---------------------------------------------------------------------------

/// How the slices of a manifest are packed.
#[derive(Clone, Copy, Debug, PartialEq, Eq, Structural)]
pub enum CompressionMethod {
    Zstd,
    Deflate,
    /// Not packed, or in a way that is not known.
    Other,
}

/// What a decoder gave: the bytes, or its message.
pub open spec fn outcome(r: Result<Vec<u8>, String>) -> Result<Seq<u8>, Seq<char>> {
    match r {
        Ok(b) => Ok(b@),
        Err(m) => Err(m@),
    }
}

/// What `zstd` unpacks some bytes to, or the message of its error.
pub uninterp spec fn zstd_decoded(data: Seq<u8>) -> Result<Seq<u8>, Seq<char>>;

/// `zstd::decode_all`. Its result is named: the bytes, or the text of its error.
#[verifier::external_body]
fn zstd_decode(data: &[u8]) -> (r: Result<Vec<u8>, String>)
    ensures
        outcome(r) == zstd_decoded(data@),
{
    zstd::decode_all(data).map_err(|e| e.to_string())
}

/// What `flate2` unpacks raw deflate data to, or the message of its error.
pub uninterp spec fn deflate_decoded(data: Seq<u8>) -> Result<Seq<u8>, Seq<char>>;

/// `flate2::read::DeflateDecoder`, read to its end. The result is named: the bytes,
/// or the text of the error.
#[verifier::external_body]
fn deflate_decode(data: &[u8]) -> (r: Result<Vec<u8>, String>)
    ensures
        outcome(r) == deflate_decoded(data@),
{
    let mut out = Vec::new();
    match std::io::Read::read_to_end(&mut flate2::read::DeflateDecoder::new(data), &mut out) {
        Ok(_) => Ok(out),
        Err(e) => Err(e.to_string()),
    }
}

/// What `flate2` unpacks zlib data to, or the message of its error.
pub uninterp spec fn zlib_decoded(data: Seq<u8>) -> Result<Seq<u8>, Seq<char>>;

/// `flate2::read::ZlibDecoder`, read to its end. The result is named: the bytes, or
/// the text of the error.
#[verifier::external_body]
fn zlib_decode(data: &[u8]) -> (r: Result<Vec<u8>, String>)
    ensures
        outcome(r) == zlib_decoded(data@),
{
    let mut out = Vec::new();
    match std::io::Read::read_to_end(&mut flate2::read::ZlibDecoder::new(data), &mut out) {
        Ok(_) => Ok(out),
        Err(e) => Err(e.to_string()),
    }
}

/// Data that starts as zlib data does.
pub open spec fn looks_zlib(data: Seq<u8>) -> bool {
    data.len() >= 2 && data[0] == 0x78
}

/// What deflated data unpacks to, given what it is as zlib and as raw data: the
/// form that it looks like is tried before the other, whose message is left where
/// it is neither.
pub open spec fn inflated(
    zlib_first: bool,
    zlib: Result<Seq<u8>, Seq<char>>,
    raw: Result<Seq<u8>, Seq<char>>,
) -> Result<Seq<u8>, Seq<char>> {
    match (zlib_first, zlib, raw) {
        (true, Ok(b), _) => Ok(b),
        (true, Err(_), r) => r,
        (false, _, Ok(b)) => Ok(b),
        (false, z, Err(_)) => z,
    }
}

/// What a slice unpacks to, given what the decoders make of it.
pub open spec fn unpacked(
    method: CompressionMethod,
    data: Seq<u8>,
    zstd: Result<Seq<u8>, Seq<char>>,
    zlib: Result<Seq<u8>, Seq<char>>,
    raw: Result<Seq<u8>, Seq<char>>,
) -> Result<Seq<u8>, Seq<char>> {
    match method {
        CompressionMethod::Zstd => zstd,
        CompressionMethod::Deflate => inflated(looks_zlib(data), zlib, raw),
        CompressionMethod::Other => Ok(data),
    }
}

/// The first `n` of some bytes, or all of them.
pub open spec fn first_bytes(data: Seq<u8>, n: int) -> Seq<u8> {
    if data.len() <= n {
        data
    } else {
        data.take(n)
    }
}

fn take_bytes(data: &[u8], n: usize) -> (r: &[u8])
    ensures
        r@ == first_bytes(data@, n as int),
{
    if data.len() <= n {
        data
    } else {
        vstd::slice::slice_subrange(data, 0, n)
    }
}

/// What is said of a slice that does not unpack.
pub open spec fn unpack_words(method: CompressionMethod, number: i32, data: Seq<u8>) -> Seq<char> {
    let head = lower_ascii(hex_text(first_bytes(data, 16)));
    let count = decimal(data.len());
    match method {
        CompressionMethod::Zstd => "zstd decompress (method="@ + signed(number as int) + ", "@
            + count + " bytes, head="@ + head + ", text="@ + quoted(
            utf8_lossy(first_bytes(data, 64)),
        ) + ")"@,
        _ => "deflate decompress (method="@ + signed(number as int) + ", "@ + count
            + " bytes, zlib_header="@ + flag(looks_zlib(data)) + ", head="@ + head + ")"@,
    }
}

fn unpack_text(method: CompressionMethod, number: i32, data: &[u8]) -> (r: String)
    ensures
        r@ == unpack_words(method, number, data@),
{
    let head = to_lower_ascii(hex_upper(take_bytes(data, 16)).as_str());
    let count = decimal_of(data.len() as u64);
    match method {
        CompressionMethod::Zstd => {
            let mut r = "zstd decompress (method=".to_owned();
            r.append(signed_of(number).as_str());
            r.append(", ");
            r.append(count.as_str());
            r.append(" bytes, head=");
            r.append(head.as_str());
            r.append(", text=");
            r.append(quote(from_utf8_lossy(take_bytes(data, 64)).as_str()).as_str());
            r.append(")");
            r
        },
        _ => {
            let mut r = "deflate decompress (method=".to_owned();
            r.append(signed_of(number).as_str());
            r.append(", ");
            r.append(count.as_str());
            r.append(" bytes, zlib_header=");
            r.append(flag_of(data.len() >= 2 && data[0] == 0x78));
            r.append(", head=");
            r.append(head.as_str());
            r.append(")");
            r
        },
    }
}

/// Why some bytes do not unpack: what was tried, and the decoder's message.
#[derive(Debug)]
pub struct UnpackError {
    pub context: String,
    pub cause: String,
}

/// Unpacks deflated data, of whichever of the two forms it is.
fn inflate(data: &[u8]) -> (r: Result<Vec<u8>, String>)
    ensures
        outcome(r) == inflated(looks_zlib(data@), zlib_decoded(data@), deflate_decoded(data@)),
{
    if data.len() >= 2 && data[0] == 0x78 {
        match zlib_decode(data) {
            Ok(b) => Ok(b),
            Err(_) => deflate_decode(data),
        }
    } else {
        match deflate_decode(data) {
            Ok(b) => Ok(b),
            Err(_) => zlib_decode(data),
        }
    }
}

/// What unpacking a slice gives, where its decoder gave `decoded`: the bytes, or
/// what was tried and the decoder's message.
pub fn unpack_result(
    method: CompressionMethod,
    number: i32,
    data: &[u8],
    decoded: Result<Vec<u8>, String>,
) -> (r: Result<Vec<u8>, UnpackError>)
    ensures
        match (decoded, r) {
            (Ok(b), Ok(out)) => out == b,
            (Err(cause), Err(e)) => e.context@ == unpack_words(method, number, data@) && e.cause
                == cause,
            _ => false,
        },
{
    match decoded {
        Ok(b) => Ok(b),
        Err(cause) => Err(UnpackError { context: unpack_text(method, number, data), cause }),
    }
}

/// Unpacks a slice. `number` is the manifest's number for the method.
pub fn decompress(method: CompressionMethod, number: i32, data: &[u8]) -> (r: Result<
    Vec<u8>,
    UnpackError,
>)
    ensures
        match unpacked(
            method,
            data@,
            zstd_decoded(data@),
            zlib_decoded(data@),
            deflate_decoded(data@),
        ) {
            Ok(b) => r matches Ok(out) && out@ == b,
            Err(cause) => r matches Err(e) && e.context@ == unpack_words(method, number, data@)
                && e.cause@ == cause,
        },
{
    let out = match method {
        CompressionMethod::Zstd => zstd_decode(data),
        CompressionMethod::Deflate => inflate(data),
        CompressionMethod::Other => {
            let mut copy: Vec<u8> = Vec::new();
            copy.extend_from_slice(data);
            assert(copy@ == data@);
            Ok(copy)
        },
    };
    unpack_result(method, number, data, out)
}

/// The bytes in front of a packed manifest.
pub const MANIFEST_HEADER: usize = 356;

/// What unpacking a manifest gives, where its decoder gave `decoded`.
pub fn manifest_result(decoded: Result<Vec<u8>, String>) -> (r: Result<Vec<u8>, UnpackError>)
    ensures
        match (decoded, r) {
            (Ok(b), Ok(out)) => out == b,
            (Err(cause), Err(e)) => e.context@ == "inflating manifest"@ && e.cause == cause,
            _ => false,
        },
{
    match decoded {
        Ok(b) => Ok(b),
        Err(cause) => Err(UnpackError { context: "inflating manifest".to_owned(), cause }),
    }
}

/// Takes a manifest file apart: behind its header it is zlib data.
pub fn unpack_manifest(file: &[u8]) -> (r: Result<Vec<u8>, UnpackError>)
    ensures
        file@.len() <= MANIFEST_HEADER ==> (r matches Err(e) && e.context@ == "manifest is only "@
            + decimal(file@.len()) + " bytes"@ && e.cause@.len() == 0),
        file@.len() > MANIFEST_HEADER ==> match zlib_decoded(file@.skip(356)) {
            Ok(b) => r matches Ok(out) && out@ == b,
            Err(cause) => r matches Err(e) && e.context@ == "inflating manifest"@ && e.cause@
                == cause,
        },
{
    if file.len() <= MANIFEST_HEADER {
        let mut context = "manifest is only ".to_owned();
        context.append(decimal_of(file.len() as u64).as_str());
        context.append(" bytes");
        return Err(UnpackError { context, cause: String::new() });
    }
    let packed = vstd::slice::slice_subrange(file, MANIFEST_HEADER, file.len());
    assert(packed@ == file@.skip(356));
    manifest_result(zlib_decode(packed))
}

// ---------------------------------------------------------------------------
// What a manifest says
// ---------------------------------------------------------------------------

/// A file of a manifest: its name with the separators of Windows, its size, the
/// hashes of its slices' contents, and for each slice the hash of its packed
/// bytes, where the manifest gives it.
#[derive(Debug)]
pub struct ManifestFile {
    pub name: String,
    pub size: u64,
    pub slices: Vec<Vec<u8>>,
    pub slice_list: Vec<Option<Vec<u8>>>,
}

/// A part of a manifest.
#[derive(Debug)]
pub struct Chunk {
    pub files: Vec<ManifestFile>,
}

/// The files of the first `n` chunks.
pub open spec fn files_in(chunks: Seq<Chunk>, n: int) -> Seq<ManifestFile>
    decreases n,
{
    if n <= 0 || n > chunks.len() {
        seq![]
    } else {
        files_in(chunks, n - 1) + chunks[n - 1].files@
    }
}

/// The files that some references refer to.
pub open spec fn referred(l: Seq<&ManifestFile>) -> Seq<ManifestFile> {
    Seq::new(l.len(), |i: int| *l[i])
}

/// All files of a manifest, in order.
pub fn all_files(chunks: &Vec<Chunk>) -> (r: Vec<&ManifestFile>)
    ensures
        referred(r@) == files_in(chunks@, chunks@.len() as int),
{
    let mut r: Vec<&ManifestFile> = Vec::new();
    let mut i: usize = 0;
    while i < chunks.len()
        invariant
            i <= chunks.len(),
            referred(r@) == files_in(chunks@, i as int),
        decreases chunks.len() - i,
    {
        let mut j: usize = 0;
        let files = &chunks[i].files;
        while j < files.len()
            invariant
                i < chunks.len(),
                j <= files.len(),
                *files == chunks@[i as int].files,
                referred(r@) == files_in(chunks@, i as int) + files@.take(j as int),
            decreases files.len() - j,
        {
            let ghost before = r@;
            r.push(&files[j]);
            assert(referred(r@) == referred(before).push(files@[j as int]));
            assert(files@.take(j + 1) == files@.take(j as int).push(files@[j as int]));
            assert(referred(r@) == files_in(chunks@, i as int) + files@.take(j + 1));
            j += 1;
        }
        assert(files@.take(j as int) == files@);
        i += 1;
    }
    r
}

/// The size of the first `n` files.
pub open spec fn size_of_files(files: Seq<ManifestFile>, n: int) -> int
    decreases n,
{
    if n <= 0 || n > files.len() {
        0
    } else {
        size_of_files(files, n - 1) + files[n - 1].size
    }
}

proof fn lemma_size_grows(files: Seq<ManifestFile>, n: int)
    requires
        0 <= n <= files.len(),
    ensures
        size_of_files(files, n) <= size_of_files(files, files.len() as int),
    decreases files.len() - n,
{
    if n < files.len() {
        lemma_size_grows(files, n + 1);
    }
}

/// The size of all files, where sixty-four bits hold it.
pub fn total_bytes(files: &Vec<&ManifestFile>) -> (r: Option<u64>)
    ensures
        match r {
            Some(n) => n == size_of_files(referred(files@), files@.len() as int),
            None => size_of_files(referred(files@), files@.len() as int) > u64::MAX,
        },
{
    let mut sum: u64 = 0;
    let mut i: usize = 0;
    while i < files.len()
        invariant
            i <= files.len(),
            sum == size_of_files(referred(files@), i as int),
        decreases files.len() - i,
    {
        proof {
            lemma_size_grows(referred(files@), i + 1);
        }
        assert(referred(files@)[i as int] == *files@[i as int]);
        match sum.checked_add(files[i].size) {
            Some(n) => {
                sum = n;
            },
            None => {
                return None;
            },
        }
        i += 1;
    }
    Some(sum)
}

/// The bytes at `i`, and none where there are none.
pub open spec fn bytes_at(l: Seq<Vec<u8>>, i: int) -> Seq<u8> {
    if 0 <= i < l.len() {
        l[i]@
    } else {
        seq![]
    }
}

/// The hash by which slice `i` of a file is fetched: that of its packed bytes,
/// and in older manifests, which do not give it, that of its contents.
pub open spec fn slice_hash(file: ManifestFile, i: int) -> Seq<char> {
    match file.slice_list[i] {
        Some(d) => if d@.len() > 0 {
            hex_text(d@)
        } else {
            hex_text(bytes_at(file.slices@, i))
        },
        None => hex_text(bytes_at(file.slices@, i)),
    }
}

/// The hash by which slice `i` of a file is fetched.
pub fn hash_of_slice(file: &ManifestFile, i: usize) -> (r: String)
    requires
        i < file.slice_list@.len(),
    ensures
        r@ == slice_hash(*file, i as int),
{
    if let Some(d) = &file.slice_list[i] {
        if d.len() > 0 {
            return hex_upper(d.as_slice());
        }
    }
    if i < file.slices.len() {
        hex_upper(file.slices[i].as_slice())
    } else {
        assert(bytes_at(file.slices@, i as int) == Seq::<u8>::empty());
        String::new()
    }
}

/// The paths of the slices of a file.
pub fn slice_paths(file: &ManifestFile, layout: SliceLayout) -> (r: Vec<String>)
    ensures
        r@.len() == file.slice_list@.len(),
        forall|i: int|
            0 <= i < r@.len() ==> (#[trigger] r@[i])@ == slice_place(layout, slice_hash(*file, i)),
{
    let mut r: Vec<String> = Vec::new();
    let mut i: usize = 0;
    while i < file.slice_list.len()
        invariant
            i <= file.slice_list.len(),
            r@.len() == i,
            forall|j: int|
                0 <= j < i ==> (#[trigger] r@[j])@ == slice_place(layout, slice_hash(*file, j)),
        decreases file.slice_list.len() - i,
    {
        r.push(slice_path(layout, hash_of_slice(file, i).as_str()));
        i += 1;
    }
    r
}

// ---------------------------------------------------------------------------
// Which layout a product has
// ---------------------------------------------------------------------------

/// A file whose first slice can be asked for.
pub open spec fn is_sample(file: ManifestFile) -> bool {
    file.slice_list@.len() > 0 && slice_hash(file, 0).len() > 0
}

/// The hash of the first slice that can be asked for, from file `i` on.
pub open spec fn sample_from(files: Seq<ManifestFile>, i: int) -> Option<Seq<char>>
    decreases files.len() - i,
{
    if i < 0 || i >= files.len() {
        None
    } else if is_sample(files[i]) {
        Some(slice_hash(files[i], 0))
    } else {
        sample_from(files, i + 1)
    }
}

/// The hash of a slice that the layout can be tried with.
pub fn sample_hash(files: &Vec<&ManifestFile>) -> (r: Option<String>)
    ensures
        opt_text(r) == sample_from(referred(files@), 0),
{
    let mut i: usize = 0;
    while i < files.len()
        invariant
            i <= files.len(),
            sample_from(referred(files@), 0) == sample_from(referred(files@), i as int),
        decreases files.len() - i,
    {
        assert(referred(files@)[i as int] == *files@[i as int]);
        let file = files[i];
        if file.slice_list.len() > 0 {
            let h = hash_of_slice(file, 0);
            if !h.as_str().is_empty() {
                return Some(h);
            }
        }
        i += 1;
    }
    None
}

/// The paths to try a slice under, the newer layout first.
pub fn candidate_paths(hash_upper: &str) -> (r: Vec<String>)
    ensures
        texts(r@) == seq![
            slice_place(SliceLayout::V3Bucket, hash_upper@),
            slice_place(SliceLayout::Flat, hash_upper@),
        ],
{
    broadcast use lemma_texts_push;

    let mut r: Vec<String> = Vec::new();
    r.push(slice_path(SliceLayout::V3Bucket, hash_upper));
    r.push(slice_path(SliceLayout::Flat, hash_upper));
    assert(texts(r@) == seq![
        slice_place(SliceLayout::V3Bucket, hash_upper@),
        slice_place(SliceLayout::Flat, hash_upper@),
    ]);
    r
}

/// The layout of a product: that of the first of the candidate paths that was
/// served, and the newer one where none was. `served` says of each path that was
/// tried whether it was served.
pub fn chosen_layout(served: &Vec<bool>) -> (r: SliceLayout)
    ensures
        r == (if served@.len() > 1 && !served@[0] && served@[1] {
            SliceLayout::Flat
        } else {
            SliceLayout::V3Bucket
        }),
{
    if served.len() > 1 && !served[0] && served[1] {
        SliceLayout::Flat
    } else {
        SliceLayout::V3Bucket
    }
}

// ---------------------------------------------------------------------------
// What becomes of a file
// ---------------------------------------------------------------------------

/// What is done for a file.
#[derive(Clone, Copy, Debug, PartialEq, Eq, Structural)]
pub enum Plan {
    /// It is empty: it is made.
    Touch,
    /// It is there already.
    Skip,
    /// Its slices are fetched.
    Fetch,
}

/// What is done for a file that has `present` bytes on disk, if it is there.
pub open spec fn planned(file: ManifestFile, present: Option<u64>) -> Plan {
    if file.slice_list@.len() == 0 {
        Plan::Touch
    } else if present == Some(file.size) {
        Plan::Skip
    } else {
        Plan::Fetch
    }
}

/// What is done for a file that has `present` bytes on disk, if it is there.
pub fn plan(file: &ManifestFile, present: Option<u64>) -> (r: Plan)
    ensures
        r == planned(*file, present),
{
    if file.slice_list.len() == 0 {
        return Plan::Touch;
    }
    if let Some(n) = present {
        if n == file.size {
            return Plan::Skip;
        }
    }
    Plan::Fetch
}

/// Where a file of a manifest goes.
pub open spec fn place_of(install_dir: Seq<char>, name: Seq<char>) -> Seq<char> {
    under(install_dir, replaced(name, "\\"@, "/"@))
}

/// Where a file of a manifest goes: its name has the separators of Windows.
pub fn target_path(install_dir: &str, name: &str) -> (r: String)
    ensures
        r@ == place_of(install_dir@, name@),
{
    proof {
        reveal_strlit("\\");
    }
    join(install_dir, replace(name, "\\", "/").as_str())
}

/// Where a file is written until it is whole.
pub fn part_path(target: &str) -> (r: String)
    ensures
        r@ == extended(target@, "optima-part"@),
{
    with_extension(target, "optima-part")
}

/// A file that is being written is never taken for the whole one: it has another
/// path.
pub proof fn law_part_file_is_another(target: Seq<char>)
    requires
        crate::path::name_of(target) is Some,
        !ends(target, ".optima-part"@),
    ensures
        extended(target, "optima-part"@) != target,
{
    reveal_strlit("optima-part");
    reveal_strlit(".optima-part");
    let e = extended(target, "optima-part"@);
    let n = crate::path::name_of(target)->0;
    let k = crate::path::settled(target).len() - n.len() + crate::path::stem_len(
        n,
        n.len() as int,
    );
    let stem = target.take(k);
    assert(e == stem + (seq!['.'] + "optima-part"@));
    assert(e.subrange(e.len() - 12, e.len() as int) =~= ".optima-part"@);
}

/// Whether the progress is shown after file `i` of `n`: after each fifth file and
/// the last one.
pub open spec fn is_milestone(i: int, n: int) -> bool {
    (i + 1) % 5 == 0 || i + 1 == n
}

/// The progress after file `i` of `n`.
pub open spec fn progress_words(i: int, n: int, name: Seq<char>) -> Seq<char> {
    "  ["@ + decimal((i + 1) as nat) + "/"@ + decimal(n as nat) + "] "@ + name
}

fn progress_text(i: usize, n: usize, name: &str) -> (r: String)
    requires
        i < n,
    ensures
        r@ == progress_words(i as int, n as int, name@),
{
    let mut r = "  [".to_owned();
    r.append(decimal_of((i + 1) as u64).as_str());
    r.append("/");
    r.append(decimal_of(n as u64).as_str());
    r.append("] ");
    r.append(name);
    r
}

/// What is done for the next file.
#[derive(Debug)]
pub enum Step {
    /// It is made, and stays empty.
    Touch,
    /// It is there already.
    Skip,
    /// Its slices are fetched and written one behind the other to `part`, which
    /// then takes the file's place. `progress` is shown after that.
    Fetch { part: String, slices: Vec<String>, progress: Option<String> },
}

/// How far an installation has come: which file is next, and how many were there
/// already.
#[derive(Clone, Copy, Debug, PartialEq, Eq, Structural)]
pub struct Installing {
    pub next: usize,
    pub skipped: usize,
}

impl Installing {
    /// No more files are skipped than were reached.
    pub open spec fn wf(self) -> bool {
        self.skipped <= self.next
    }

    /// An installation that starts.
    pub fn new() -> (r: Installing)
        ensures
            r == (Installing { next: 0, skipped: 0 }),
            r.wf(),
    {
        Installing { next: 0, skipped: 0 }
    }

    /// Where the next file goes, unless there is none left.
    pub fn target(&self, files: &Vec<&ManifestFile>, install_dir: &str) -> (r: Option<String>)
        ensures
            opt_text(r) == (if self.next < files@.len() {
                Some(place_of(install_dir@, files@[self.next as int].name@))
            } else {
                None
            }),
    {
        if self.next < files.len() {
            Some(target_path(install_dir, files[self.next].name.as_str()))
        } else {
            None
        }
    }

    /// Goes on to the next file, which has `present` bytes on disk, if it is
    /// there. What is there in full size is kept, so an installation that was cut
    /// short goes on where it was.
    pub fn advance(
        &mut self,
        files: &Vec<&ManifestFile>,
        install_dir: &str,
        layout: SliceLayout,
        present: Option<u64>,
    ) -> (r: Step)
        requires
            old(self).wf(),
            old(self).next < files@.len(),
        ensures
            final(self).wf(),
            final(self).next == old(self).next + 1,
            final(self).skipped == old(self).skipped + (if r is Skip {
                1int
            } else {
                0int
            }),
            ({
                let i = old(self).next as int;
                let file = *files@[i];
                match r {
                    Step::Touch => planned(file, present) == Plan::Touch,
                    Step::Skip => planned(file, present) == Plan::Skip,
                    Step::Fetch { part, slices, progress } => {
                        &&& planned(file, present) == Plan::Fetch
                        &&& part@ == extended(place_of(install_dir@, file.name@), "optima-part"@)
                        &&& slices@.len() == file.slice_list@.len()
                        &&& forall|k: int|
                            0 <= k < slices@.len() ==> (#[trigger] slices@[k])@ == slice_place(
                                layout,
                                slice_hash(file, k),
                            )
                        &&& opt_text(progress) == (if is_milestone(i, files@.len() as int) {
                            Some(progress_words(i, files@.len() as int, file.name@))
                        } else {
                            None
                        })
                    },
                }
            }),
    {
        let n = files.len();
        let i = self.next;
        let file = files[i];
        self.next = i + 1;
        match plan(file, present) {
            Plan::Touch => Step::Touch,
            Plan::Skip => {
                self.skipped = self.skipped + 1;
                Step::Skip
            },
            Plan::Fetch => {
                let progress = if (i + 1) % 5 == 0 || i + 1 == n {
                    Some(progress_text(i, n, file.name.as_str()))
                } else {
                    None
                };
                Step::Fetch {
                    part: part_path(target_path(install_dir, file.name.as_str()).as_str()),
                    slices: slice_paths(file, layout),
                    progress,
                }
            },
        }
    }

    /// What is said at the end.
    pub fn summary(&self, name: &str, install_dir: &str) -> (r: Vec<String>)
        ensures
            texts(r@) == (if self.skipped > 0 {
                seq![
                    "  ("@ + decimal(self.skipped as nat) + " files already present, skipped)"@,
                    "Installed "@ + name@ + " to "@ + install_dir@,
                ]
            } else {
                seq!["Installed "@ + name@ + " to "@ + install_dir@]
            }),
    {
        broadcast use lemma_texts_push;

        let mut r: Vec<String> = Vec::new();
        assert(texts(r@) == Seq::<Seq<char>>::empty());
        if self.skipped > 0 {
            let mut l = "  (".to_owned();
            l.append(decimal_of(self.skipped as u64).as_str());
            l.append(" files already present, skipped)");
            r.push(l);
        }
        let mut l = "Installed ".to_owned();
        l.append(name);
        l.append(" to ");
        l.append(install_dir);
        r.push(l);
        assert(texts(r@) == (if self.skipped > 0 {
            seq![
                "  ("@ + decimal(self.skipped as nat) + " files already present, skipped)"@,
                "Installed "@ + name@ + " to "@ + install_dir@,
            ]
        } else {
            seq!["Installed "@ + name@ + " to "@ + install_dir@]
        }));
        r
    }
}

/// A file that was fetched whole is not fetched again, nor is an empty one: once
/// its size on disk is that of the manifest, nothing of it is asked for.
pub proof fn law_whole_files_are_not_fetched_again(file: ManifestFile)
    ensures
        planned(file, Some(file.size)) != Plan::Fetch,
{
}

// ---------------------------------------------------------------------------
// The download service
// ---------------------------------------------------------------------------

/// A request to the download service.
#[derive(Debug)]
pub enum DownloadReq {
    Initialize { request_id: u32, ownership_token: String },
    Urls { request_id: u32, product_id: u32, paths: Vec<String> },
}

/// A connection to the download service, and the id of its next request.
#[derive(Debug)]
pub struct DownloadService {
    pub conn: u32,
    pub req_id: u32,
}

impl DownloadService {
    /// The service behind a fresh connection.
    pub fn new(conn: u32) -> (r: DownloadService)
        ensures
            r == (DownloadService { conn, req_id: 1 }),
    {
        DownloadService { conn, req_id: 1 }
    }

    /// The next request id.
    pub fn next_id(&mut self) -> (id: u32)
        requires
            old(self).req_id < u32::MAX,
        ensures
            id == old(self).req_id,
            *final(self) == (DownloadService {
                conn: old(self).conn,
                req_id: (old(self).req_id + 1) as u32,
            }),
    {
        let id = self.req_id;
        self.req_id = self.req_id + 1;
        id
    }

    /// The request that the connection starts with.
    pub fn initialize(&mut self, ownership_token: &str) -> (r: DownloadReq)
        requires
            old(self).req_id < u32::MAX,
        ensures
            r matches DownloadReq::Initialize { request_id, ownership_token: token } && request_id
                == old(self).req_id && token@ == ownership_token@,
            final(self).conn == old(self).conn,
            final(self).req_id == old(self).req_id + 1,
    {
        let request_id = self.next_id();
        DownloadReq::Initialize { request_id, ownership_token: ownership_token.to_owned() }
    }

    /// Asks for the signed addresses of some paths.
    pub fn sign(&mut self, product_id: u32, paths: Vec<String>) -> (r: DownloadReq)
        requires
            old(self).req_id < u32::MAX,
        ensures
            r == (DownloadReq::Urls { request_id: old(self).req_id, product_id, paths }),
            final(self).conn == old(self).conn,
            final(self).req_id == old(self).req_id + 1,
    {
        let request_id = self.next_id();
        DownloadReq::Urls { request_id, product_id, paths }
    }
}

/// The addresses of one path.
#[derive(Debug)]
pub struct DownloadUrls {
    pub urls: Vec<String>,
}

/// The answer for one product.
#[derive(Debug)]
pub struct UrlResponse {
    pub download_urls: Vec<DownloadUrls>,
}

/// The addresses of the first `n` paths.
pub open spec fn urls_in(l: Seq<DownloadUrls>, n: int) -> Seq<Seq<char>>
    decreases n,
{
    if n <= 0 || n > l.len() {
        seq![]
    } else {
        urls_in(l, n - 1) + texts(l[n - 1].urls@)
    }
}

/// The addresses in the first `n` answers.
pub open spec fn all_urls_in(l: Seq<UrlResponse>, n: int) -> Seq<Seq<char>>
    decreases n,
{
    if n <= 0 || n > l.len() {
        seq![]
    } else {
        all_urls_in(l, n - 1) + urls_in(
            l[n - 1].download_urls@,
            l[n - 1].download_urls@.len() as int,
        )
    }
}

/// Appends some texts.
fn push_all(out: &mut Vec<String>, more: &Vec<String>)
    ensures
        texts(final(out)@) == texts(old(out)@) + texts(more@),
{
    let mut i: usize = 0;
    while i < more.len()
        invariant
            i <= more.len(),
            texts(out@) == texts(old(out)@) + texts(more@).take(i as int),
        decreases more.len() - i,
    {
        broadcast use lemma_texts_push;

        out.push(more[i].clone());
        assert(texts(more@).take(i + 1) == texts(more@).take(i as int).push(
            texts(more@)[i as int],
        ));
        assert(texts(out@) == texts(old(out)@) + texts(more@).take(i + 1));
        i += 1;
    }
    assert(texts(more@).take(i as int) == texts(more@));
}

/// The signed addresses in an answer, in order.
pub fn signed_urls(rsp: &Option<Vec<UrlResponse>>) -> (r: Vec<String>)
    ensures
        texts(r@) == (match rsp {
            Some(l) => all_urls_in(l@, l@.len() as int),
            None => seq![],
        }),
{
    let mut r: Vec<String> = Vec::new();
    assert(texts(r@) == Seq::<Seq<char>>::empty());
    if let Some(l) = rsp {
        let mut i: usize = 0;
        while i < l.len()
            invariant
                i <= l.len(),
                texts(r@) == all_urls_in(l@, i as int),
            decreases l.len() - i,
        {
            let d = &l[i].download_urls;
            let mut j: usize = 0;
            while j < d.len()
                invariant
                    i < l.len(),
                    j <= d.len(),
                    *d == l@[i as int].download_urls,
                    texts(r@) == all_urls_in(l@, i as int) + urls_in(d@, j as int),
                decreases d.len() - j,
            {
                let ghost before = all_urls_in(l@, i as int);
                push_all(&mut r, &d[j].urls);
                assert(texts(r@) == before + urls_in(d@, j + 1));
                j += 1;
            }
            i += 1;
        }
    }
    r
}

// ---------------------------------------------------------------------------
// Signing in portions
// ---------------------------------------------------------------------------

/// How many paths are signed at once. A larger request makes the server drop the
/// connection.
pub const BATCH: usize = 100;

/// How often signing a batch is tried again.
pub const SIGN_RETRIES: u32 = 10;

/// How often fetching a slice is tried again.
pub const SLICE_RETRIES: u32 = 5;

/// Where the batch that starts at `start` ends.
pub open spec fn batch_end(len: int, start: int) -> int {
    if start + BATCH <= len {
        start + BATCH
    } else {
        len
    }
}

/// Signing a list of paths, batch by batch: how far it has come, how often the
/// current batch has failed, and the addresses so far.
#[derive(Debug)]
pub struct Signing {
    pub paths: Vec<String>,
    pub start: usize,
    pub retry: Retry,
    pub urls: Vec<String>,
}

impl Signing {
    /// The batches so far are within the list, and failures are counted up to
    /// `SIGN_RETRIES`.
    pub open spec fn wf(self) -> bool {
        self.start <= self.paths@.len() && self.retry.wf() && self.retry.limit == SIGN_RETRIES
    }

    /// The paths that have been signed.
    pub open spec fn done(self) -> Seq<Seq<char>> {
        texts(self.paths@).take(self.start as int)
    }

    /// The paths of the current batch.
    pub open spec fn current(self) -> Seq<Seq<char>> {
        texts(self.paths@).subrange(
            self.start as int,
            batch_end(self.paths@.len() as int, self.start as int),
        )
    }

    /// Nothing is signed yet.
    pub fn new(paths: Vec<String>) -> (r: Signing)
        ensures
            r.wf(),
            r.paths == paths,
            r.start == 0,
            r.retry.attempt == 0,
            texts(r.urls@) == Seq::<Seq<char>>::empty(),
    {
        let urls: Vec<String> = Vec::new();
        assert(texts(urls@) == Seq::<Seq<char>>::empty());
        Signing { paths, start: 0, retry: Retry::new(SIGN_RETRIES), urls }
    }

    /// The batch to sign next, where there is one left.
    pub fn batch(&self) -> (r: Option<Vec<String>>)
        requires
            self.wf(),
        ensures
            match r {
                Some(b) => self.start < self.paths@.len() && texts(b@) == self.current() && 0
                    < b@.len() <= BATCH,
                None => self.start == self.paths@.len(),
            },
    {
        if self.start == self.paths.len() {
            return None;
        }
        let end: usize = if self.paths.len() - self.start >= BATCH {
            self.start + BATCH
        } else {
            self.paths.len()
        };
        let mut b: Vec<String> = Vec::new();
        let mut i: usize = self.start;
        while i < end
            invariant
                self.start <= i <= end <= self.paths.len(),
                texts(b@) == texts(self.paths@).subrange(self.start as int, i as int),
                b@.len() == i - self.start,
            decreases end - i,
        {
            broadcast use lemma_texts_push;

            b.push(self.paths[i].clone());
            assert(texts(b@) == texts(self.paths@).subrange(self.start as int, i + 1));
            i += 1;
        }
        Some(b)
    }

    /// The current batch is signed.
    pub fn signed(&mut self, urls: &Vec<String>)
        requires
            old(self).wf(),
        ensures
            final(self).wf(),
            final(self).paths == old(self).paths,
            final(self).start == batch_end(old(self).paths@.len() as int, old(self).start as int),
            final(self).done() == old(self).done() + old(self).current(),
            final(self).retry.attempt == 0,
            texts(final(self).urls@) == texts(old(self).urls@) + texts(urls@),
    {
        push_all(&mut self.urls, urls);
        self.start = if self.paths.len() - self.start >= BATCH {
            self.start + BATCH
        } else {
            self.paths.len()
        };
        self.retry = Retry::new(SIGN_RETRIES);
        assert(self.done() == old(self).done() + old(self).current());
    }

    /// Signing the current batch failed: says whether to try it again.
    pub fn failed(&mut self) -> (again: bool)
        requires
            old(self).wf(),
        ensures
            final(self).wf(),
            final(self).paths == old(self).paths,
            final(self).start == old(self).start,
            final(self).urls == old(self).urls,
            again == (old(self).retry.attempt < SIGN_RETRIES),
            again ==> final(self).retry.attempt == old(self).retry.attempt + 1,
            !again ==> final(self).retry == old(self).retry,
    {
        self.retry.failed()
    }
}

/// The batches from `start` on.
pub open spec fn batches_from(paths: Seq<Seq<char>>, start: int) -> Seq<Seq<Seq<char>>>
    decreases paths.len() - start,
{
    if start < 0 || start >= paths.len() {
        seq![]
    } else {
        let end = batch_end(paths.len() as int, start);
        seq![paths.subrange(start, end)] + batches_from(paths, end)
    }
}

/// Some lists, one behind the other.
pub open spec fn chained(l: Seq<Seq<Seq<char>>>) -> Seq<Seq<char>>
    decreases l.len(),
{
    if l.len() == 0 {
        seq![]
    } else {
        l[0] + chained(l.skip(1))
    }
}

/// The batches hold every path once and in order, and none holds more than
/// `BATCH`.
pub proof fn law_batches_cover_the_paths(paths: Seq<Seq<char>>, start: int)
    requires
        0 <= start <= paths.len(),
    ensures
        chained(batches_from(paths, start)) == paths.skip(start),
        forall|i: int|
            0 <= i < batches_from(paths, start).len() ==> 0 < (#[trigger] batches_from(
                paths,
                start,
            )[i]).len() <= BATCH,
    decreases paths.len() - start,
{
    let all = batches_from(paths, start);
    if start < paths.len() {
        let end = batch_end(paths.len() as int, start);
        law_batches_cover_the_paths(paths, end);
        assert(all.skip(1) =~= batches_from(paths, end));
        assert(paths.subrange(start, end) + paths.skip(end) =~= paths.skip(start));
        assert forall|i: int| 0 <= i < all.len() implies 0 < (#[trigger] all[i]).len() <= BATCH by {
            if i > 0 {
                assert(all[i] == batches_from(paths, end)[i - 1]);
            }
        }
    } else {
        assert(paths.skip(start) =~= Seq::empty());
    }
}

// ---------------------------------------------------------------------------
// Looking for the layout by hand
// ---------------------------------------------------------------------------

/// The hash that the layout is looked for with: that of the first slice of the
/// first file from `i` on that has one.
pub open spec fn probe_from(files: Seq<ManifestFile>, i: int) -> Option<Seq<char>>
    decreases files.len() - i,
{
    if i < 0 || i >= files.len() {
        None
    } else if files[i].slices@.len() > 0 {
        Some(hex_text(files[i].slices@[0]@))
    } else {
        probe_from(files, i + 1)
    }
}

/// The hash that the layout is looked for with.
pub fn probe_hash(files: &Vec<&ManifestFile>) -> (r: Option<String>)
    ensures
        opt_text(r) == probe_from(referred(files@), 0),
{
    let mut i: usize = 0;
    while i < files.len()
        invariant
            i <= files.len(),
            probe_from(referred(files@), 0) == probe_from(referred(files@), i as int),
        decreases files.len() - i,
    {
        assert(referred(files@)[i as int] == *files@[i as int]);
        let file = files[i];
        if file.slices.len() > 0 {
            return Some(hex_upper(file.slices[0].as_slice()));
        }
        i += 1;
    }
    None
}

/// A path to try, and how it is labelled.
pub open spec fn probe_bucket(pre: Seq<char>, c: char, hash: Seq<char>, tag: Seq<char>) -> (
    Seq<char>,
    Seq<char>,
) {
    (pre + "/"@ + seq![c] + "/"@ + hash, pre + "/bucket/"@ + tag)
}

/// A path to try without a bucket, and how it is labelled.
pub open spec fn probe_flat(pre: Seq<char>, hash: Seq<char>, tag: Seq<char>) -> (
    Seq<char>,
    Seq<char>,
) {
    (pre + "/"@ + hash, pre + "/flat/"@ + tag)
}

/// The paths to try below one directory, with the hash in both cases of letters.
pub open spec fn probes_below(pre: Seq<char>, hash: Seq<char>) -> Seq<(Seq<char>, Seq<char>)> {
    seq![
        probe_bucket(pre, bucket(hash), hash, "U"@),
        probe_flat(pre, hash, "U"@),
        probe_bucket(pre, bucket(hash), lower_ascii(hash), "L"@),
        probe_flat(pre, lower_ascii(hash), "L"@),
    ]
}

fn add_probes(out: &mut Vec<(String, String)>, pre: &str, c: char, hash: &str, tag: &str)
    ensures
        pairs(final(out)@) == pairs(old(out)@).push(
            probe_bucket(pre@, c, hash@, tag@),
        ).push(probe_flat(pre@, hash@, tag@)),
{
    let mut path = pre.to_owned();
    path.append("/");
    path.push(c);
    path.append("/");
    path.append(hash);
    let mut label = pre.to_owned();
    label.append("/bucket/");
    label.append(tag);
    assert(path@ == probe_bucket(pre@, c, hash@, tag@).0);
    out.push((path, label));
    let mut path = pre.to_owned();
    path.append("/");
    path.append(hash);
    let mut label = pre.to_owned();
    label.append("/flat/");
    label.append(tag);
    out.push((path, label));
}

/// All paths to try a slice under, each with its label.
pub fn probe_paths(hash_upper: &str) -> (r: Vec<(String, String)>)
    ensures
        pairs(r@) == probes_below("slices_v3"@, hash_upper@) + probes_below(
            "slices_v2"@,
            hash_upper@,
        ) + probes_below("slices"@, hash_upper@) + probes_below("sliceList"@, hash_upper@)
            + probes_below("chunks"@, hash_upper@),
{
    let lower = to_lower_ascii(hash_upper);
    let l = lower.as_str();
    let c = hash_path_char(hash_upper);
    let mut r: Vec<(String, String)> = Vec::new();
    add_probes(&mut r, "slices_v3", c, hash_upper, "U");
    add_probes(&mut r, "slices_v3", c, l, "L");
    add_probes(&mut r, "slices_v2", c, hash_upper, "U");
    add_probes(&mut r, "slices_v2", c, l, "L");
    add_probes(&mut r, "slices", c, hash_upper, "U");
    add_probes(&mut r, "slices", c, l, "L");
    add_probes(&mut r, "sliceList", c, hash_upper, "U");
    add_probes(&mut r, "sliceList", c, l, "L");
    add_probes(&mut r, "chunks", c, hash_upper, "U");
    add_probes(&mut r, "chunks", c, l, "L");
    r
}

// ---------------------------------------------------------------------------
// What an installation promises
// ---------------------------------------------------------------------------

/// A slice is asked for by the hash of its packed bytes, wherever the manifest gives
/// that, whatever it gives as the hash of the contents. The hash of the contents only
/// takes its place where the other is missing or empty.
pub proof fn law_slices_are_asked_for_by_their_packed_hash(file: ManifestFile, i: int)
    requires
        0 <= i < file.slice_list@.len(),
    ensures
        file.slice_list@[i] matches Some(d) ==> d@.len() > 0 ==> slice_hash(file, i) == hex_text(
            d@,
        ),
        (file.slice_list@[i] is None || file.slice_list@[i]->0@.len() == 0) && i
            < file.slices@.len() ==> slice_hash(file, i) == hex_text(file.slices@[i]@),
        (file.slice_list@[i] is None || file.slice_list@[i]->0@.len() == 0) && i
            >= file.slices@.len() ==> slice_hash(file, i).len() == 0,
{
}

/// The path of a slice is made of its hash. In the newer layout a directory stands
/// before it, which the first byte of the hash names: its lower half counts ones, and
/// an odd upper half adds sixteen.
pub proof fn law_slice_path_is_made_of_its_hash(hash: Seq<u8>)
    requires
        hash.len() > 0,
    ensures
        slice_place(SliceLayout::Flat, hex_text(hash)) == "slices/"@ + hex_text(hash),
        slice_place(SliceLayout::V3Bucket, hex_text(hash)) == "slices_v3/"@ + seq![
            "0123456789abcdefghijklmnopqrstuv"@[hash[0] as int % 16 + 16 * (hash[0] as int / 16
                % 2)],
        ] + "/"@ + hex_text(hash),
{
    reveal_strlit("0123456789ABCDEF");
    reveal_strlit("0123456789abcdefghijklmnopqrstuv");
    crate::codec::law_hex_digits_of_each_byte(hash, 0);
    let t = hex_text(hash);
    let b = hash[0];
    let hi = t[0];
    let lo = t[1];
    assert(hi == "0123456789ABCDEF"@[b as int / 16]);
    assert(lo == "0123456789ABCDEF"@[b as int % 16]);
    assert(crate::codec::hex_value(hi) == Some((b / 16) as u8));
    assert(crate::codec::hex_value(lo) == Some((b % 16) as u8));
    let v = (16 * (b % 16) + b / 16) as u8;
    assert(pair_value(lo, hi) == Some(v));
    assert(v as int / 16 == b as int % 16);
    assert(v as int % 2 == b as int / 16 % 2);
    let n = b as int % 16 + 16 * (b as int / 16 % 2);
    assert(bucket(t) == bucket_digit(n));
    assert(0 <= n < 32);
    assert(bucket_digit(n) == "0123456789abcdefghijklmnopqrstuv"@[n]);
}

/// The files of a manifest are those of all its chunks, one chunk behind the other.
pub proof fn law_all_files_of_all_chunks(chunks: Seq<Chunk>, n: int)
    requires
        0 <= n <= chunks.len(),
    ensures
        files_in(chunks, n) == chunks.take(n).map_values(|c: Chunk| c.files@).flatten(),
    decreases n,
{
    let f = |c: Chunk| c.files@;
    if n == 0 {
        assert(chunks.take(0).map_values(f) =~= Seq::empty());
    } else {
        law_all_files_of_all_chunks(chunks, n - 1);
        assert(chunks.take(n).map_values(f) =~= chunks.take(n - 1).map_values(f).push(
            chunks[n - 1].files@,
        ));
        chunks.take(n - 1).map_values(f).lemma_flatten_push(chunks[n - 1].files@);
    }
}

/// The size of an installation is the sum of the sizes of its files.
pub proof fn law_size_is_the_sum(files: Seq<ManifestFile>, n: int)
    requires
        0 <= n <= files.len(),
    ensures
        size_of_files(files, n) == files.take(n).fold_left(
            0int,
            |sum: int, f: ManifestFile| sum + f.size,
        ),
    decreases n,
{
    if n > 0 {
        law_size_is_the_sum(files, n - 1);
        assert(files.take(n).drop_last() =~= files.take(n - 1));
        assert(files.take(n).last() == files[n - 1]);
    }
}

proof fn lemma_sample_later(files: Seq<ManifestFile>, i: int, k: int)
    requires
        0 <= i <= k <= files.len(),
        forall|j: int| i <= j < k ==> !is_sample(#[trigger] files[j]),
    ensures
        sample_from(files, i) == sample_from(files, k),
    decreases k - i,
{
    if i < k {
        lemma_sample_later(files, i + 1, k);
    }
}

/// The layout is tried with the first slice of the first file that has slices.
pub proof fn law_layout_is_tried_with_the_first_slice(files: Seq<ManifestFile>, k: int)
    requires
        0 <= k <= files.len(),
        forall|j: int| 0 <= j < k ==> (#[trigger] files[j]).slice_list@.len() == 0,
        k < files.len() ==> files[k].slice_list@.len() > 0 && (files[k].slice_list@[0] matches Some(
            d,
        ) && d@.len() > 0),
    ensures
        k < files.len() ==> sample_from(files, 0) == Some(
            hex_text(files[k].slice_list@[0]->0@),
        ),
        k == files.len() ==> sample_from(files, 0) is None,
{
    lemma_sample_later(files, 0, k);
    if k < files.len() {
        let d = files[k].slice_list@[0]->0@;
        crate::codec::law_hex_digits_of_each_byte(d, 0);
    }
}

/// What is done for a file: one without slices is made, one that is there in full
/// size is left alone, and any other is fetched, however much of it is there.
pub proof fn law_what_is_done_for_a_file(file: ManifestFile, present: Option<u64>)
    ensures
        file.slice_list@.len() == 0 ==> planned(file, present) == Plan::Touch,
        file.slice_list@.len() > 0 && present == Some(file.size) ==> planned(file, present)
            == Plan::Skip,
        file.slice_list@.len() > 0 && present != Some(file.size) ==> planned(file, present)
            == Plan::Fetch,
{
}

/// A file goes below the directory of the installation, with each backslash of its
/// name as a separator.
pub proof fn law_file_goes_below_the_installation(dir: Seq<char>, name: Seq<char>)
    requires
        dir.len() > 0,
        dir.last() != '/',
        name.len() > 0 ==> name[0] != '/' && name[0] != '\\',
    ensures
        place_of(dir, name) == dir + seq!['/'] + Seq::new(
            name.len(),
            |i: int|
                if name[i] == '\\' {
                    '/'
                } else {
                    name[i]
                },
        ),
{
    reveal_strlit("\\");
    reveal_strlit("/");
    assert("\\"@ =~= seq!['\\']);
    assert("/"@ =~= seq!['/']);
    crate::text::law_replaced_char(name, '\\', '/');
}

/// A file is written beside its place until it is whole: in the same directory, under
/// its name with the extension `optima-part`.
pub proof fn law_part_file_is_beside(dir: Seq<char>, stem: Seq<char>, ext: Seq<char>)
    requires
        dir.len() > 0,
        stem.len() > 0,
        ext.len() > 0,
        forall|i: int| 0 <= i < stem.len() ==> #[trigger] stem[i] != '/',
        forall|i: int| 0 <= i < ext.len() ==> #[trigger] ext[i] != '/' && ext[i] != '.',
    ensures
        extended(under(dir, stem + seq!['.'] + ext), "optima-part"@) == under(
            dir,
            stem + ".optima-part"@,
        ),
{
    reveal_strlit("optima-part");
    reveal_strlit(".optima-part");
    crate::path::law_extension_alone_is_replaced(dir, stem, ext, "optima-part"@);
    assert(stem + seq!['.'] + "optima-part"@ =~= stem + ".optima-part"@);
}

/// A batch holds the next hundred paths, or what is left of them, in their order.
pub proof fn law_batch_is_the_next_hundred(s: Signing, k: int)
    requires
        s.wf(),
    ensures
        s.paths@.len() - s.start >= 100 ==> s.current().len() == 100,
        s.paths@.len() - s.start < 100 ==> s.current().len() == s.paths@.len() - s.start,
        0 <= k < s.current().len() ==> s.current()[k] == s.paths@[s.start + k]@,
        s.done().len() == s.start,
        batch_end(s.paths@.len() as int, s.start as int) == s.start + s.current().len(),
{
}

/// The addresses in an answer are all that it holds, in its order.
pub proof fn law_all_addresses_of_an_answer(l: Seq<UrlResponse>, n: int)
    requires
        0 <= n <= l.len(),
    ensures
        all_urls_in(l, n) == l.take(n).map_values(
            |r: UrlResponse|
                r.download_urls@.map_values(|d: DownloadUrls| texts(d.urls@)).flatten(),
        ).flatten(),
    decreases n,
{
    let f = |r: UrlResponse|
        r.download_urls@.map_values(|d: DownloadUrls| texts(d.urls@)).flatten();
    if n == 0 {
        assert(l.take(0).map_values(f) =~= Seq::empty());
    } else {
        law_all_addresses_of_an_answer(l, n - 1);
        let d = l[n - 1].download_urls@;
        lemma_urls_in(d, d.len() as int);
        assert(d.take(d.len() as int) =~= d);
        assert(l.take(n).map_values(f) =~= l.take(n - 1).map_values(f).push(f(l[n - 1])));
        l.take(n - 1).map_values(f).lemma_flatten_push(f(l[n - 1]));
    }
}

proof fn lemma_urls_in(l: Seq<DownloadUrls>, n: int)
    requires
        0 <= n <= l.len(),
    ensures
        urls_in(l, n) == l.take(n).map_values(|d: DownloadUrls| texts(d.urls@)).flatten(),
    decreases n,
{
    let f = |d: DownloadUrls| texts(d.urls@);
    if n == 0 {
        assert(l.take(0).map_values(f) =~= Seq::empty());
    } else {
        lemma_urls_in(l, n - 1);
        assert(l.take(n).map_values(f) =~= l.take(n - 1).map_values(f).push(f(l[n - 1])));
        l.take(n - 1).map_values(f).lemma_flatten_push(f(l[n - 1]));
    }
}

/// A slice is unpacked as its manifest says, and one that is not packed stays as it
/// is. Deflated data is tried in the form that its first byte announces, and then in
/// the other one.
pub proof fn law_slice_is_unpacked_as_announced(
    data: Seq<u8>,
    zstd: Result<Seq<u8>, Seq<char>>,
    zlib: Result<Seq<u8>, Seq<char>>,
    raw: Result<Seq<u8>, Seq<char>>,
)
    ensures
        unpacked(CompressionMethod::Zstd, data, zstd, zlib, raw) == zstd,
        unpacked(CompressionMethod::Other, data, zstd, zlib, raw) == Ok::<Seq<u8>, Seq<char>>(
            data,
        ),
        unpacked(CompressionMethod::Deflate, data, zstd, zlib, raw) is Err <==> zlib is Err
            && raw is Err,
        data.len() >= 2 && data[0] == 0x78 && zlib is Ok ==> unpacked(
            CompressionMethod::Deflate,
            data,
            zstd,
            zlib,
            raw,
        ) == zlib,
        data.len() >= 2 && data[0] == 0x78 && zlib is Err ==> unpacked(
            CompressionMethod::Deflate,
            data,
            zstd,
            zlib,
            raw,
        ) == raw,
        !(data.len() >= 2 && data[0] == 0x78) && raw is Ok ==> unpacked(
            CompressionMethod::Deflate,
            data,
            zstd,
            zlib,
            raw,
        ) == raw,
        !(data.len() >= 2 && data[0] == 0x78) && raw is Err ==> unpacked(
            CompressionMethod::Deflate,
            data,
            zstd,
            zlib,
            raw,
        ) == zlib,
{
}

/// The progress is shown after each fifth file and after the last, and counts the
/// files up to that one.
pub proof fn law_progress_is_shown_now_and_then(i: int, n: int, name: Seq<char>)
    requires
        0 <= i < n,
    ensures
        is_milestone(i, n) <==> (i + 1) % 5 == 0 || i == n - 1,
        progress_words(i, n, name) == "  ["@ + decimal((i + 1) as nat) + "/"@ + decimal(n as nat)
            + "] "@ + name,
{
}

proof fn lemma_probe_later(files: Seq<ManifestFile>, i: int, k: int)
    requires
        0 <= i <= k <= files.len(),
        forall|j: int| i <= j < k ==> (#[trigger] files[j]).slices@.len() == 0,
    ensures
        probe_from(files, i) == probe_from(files, k),
    decreases k - i,
{
    if i < k {
        lemma_probe_later(files, i + 1, k);
    }
}

/// The layout is looked for with the first content hash that there is.
pub proof fn law_layout_is_looked_for_with_the_first_hash(files: Seq<ManifestFile>, k: int)
    requires
        0 <= k <= files.len(),
        forall|j: int| 0 <= j < k ==> (#[trigger] files[j]).slices@.len() == 0,
        k < files.len() ==> files[k].slices@.len() > 0,
    ensures
        k < files.len() ==> probe_from(files, 0) == Some(hex_text(files[k].slices@[0]@)),
        k == files.len() ==> probe_from(files, 0) is None,
{
    lemma_probe_later(files, 0, k);
}

/// The function that names a slice gives the upper case text of its packed hash wherever
/// there is one, and of its content hash only where there is none.
pub proof fn law_hash_of_slice_is_the_packed_one(file: &ManifestFile, i: usize, r: String)
    requires
        i < file.slice_list@.len(),
        call_ensures(hash_of_slice, (file, i), r),
    ensures
        file.slice_list@[i as int] matches Some(d) ==> d@.len() > 0 ==> r@ == hex_text(d@),
        (file.slice_list@[i as int] is None || file.slice_list@[i as int]->0@.len() == 0) && i
            < file.slices@.len() ==> r@ == hex_text(file.slices@[i as int]@),
        (file.slice_list@[i as int] is None || file.slice_list@[i as int]->0@.len() == 0) && i
            >= file.slices@.len() ==> r@.len() == 0,
{
    law_slices_are_asked_for_by_their_packed_hash(*file, i as int);
}

/// Each slice of a file has its path, in order, made of its packed hash wherever there is
/// one.
pub proof fn law_slice_paths_name_packed_hashes(
    file: &ManifestFile,
    layout: SliceLayout,
    r: Vec<String>,
    i: int,
)
    requires
        call_ensures(slice_paths, (file, layout), r),
        0 <= i < file.slice_list@.len(),
    ensures
        r@.len() == file.slice_list@.len(),
        file.slice_list@[i] matches Some(d) ==> d@.len() > 0 && layout == SliceLayout::Flat ==> (
        r@[i])@ == "slices/"@ + hex_text(d@),
        file.slice_list@[i] matches Some(d) ==> d@.len() > 0 ==> (r@[i])@ == slice_place(
            layout,
            hex_text(d@),
        ),
{
    assert((r@[i])@ == slice_place(layout, slice_hash(*file, i)));
    law_slices_are_asked_for_by_their_packed_hash(*file, i);
    if let Some(d) = file.slice_list@[i] {
        if d@.len() > 0 {
            law_slice_path_is_made_of_its_hash(d@);
        }
    }
}

/// A manifest is what is packed behind a header of three hundred and fifty-six bytes.
pub proof fn law_manifest_is_behind_its_header(
    file: &[u8],
    header: Seq<u8>,
    packed: Seq<u8>,
    r: Result<Vec<u8>, UnpackError>,
)
    requires
        call_ensures(unpack_manifest, (file,), r),
        file@ == header + packed,
        header.len() == 356,
    ensures
        packed.len() > 0 ==> match zlib_decoded(packed) {
            Ok(b) => r matches Ok(out) && out@ == b,
            Err(cause) => r matches Err(e) && e.cause@ == cause,
        },
        packed.len() == 0 ==> r is Err,
{
    assert(file@.skip(356) =~= packed);
}

/// The older layout is taken only where it alone was served.
pub proof fn law_layout_that_was_served(served: &Vec<bool>, r: SliceLayout)
    requires
        call_ensures(chosen_layout, (served,), r),
    ensures
        served@ == seq![false, true] ==> r == SliceLayout::Flat,
        served@.len() > 0 && served@[0] ==> r == SliceLayout::V3Bucket,
        !served@.contains(true) ==> r == SliceLayout::V3Bucket,
{
    if served@ == seq![false, true] {
        assert(served@[0] == false && served@[1] == true);
    }
    if served@.len() > 1 && served@[1] {
        assert(served@.contains(true));
    }
}

/// The places where a slice may be are tried below each directory: in the directory of
/// its hash and beside it, with the hash as it is and in lower case.
pub proof fn law_slice_is_probed_everywhere(hash: &str, r: Vec<(String, String)>, pre: Seq<char>)
    requires
        call_ensures(probe_paths, (hash,), r),
        pre == "slices_v3"@ || pre == "slices_v2"@ || pre == "slices"@ || pre == "sliceList"@
            || pre == "chunks"@,
    ensures
        pairs(r@).len() == 20,
        pairs(r@).contains((pre + "/"@ + hash@, pre + "/flat/U"@)),
        pairs(r@).contains((pre + "/"@ + lower_ascii(hash@), pre + "/flat/L"@)),
        pairs(r@).contains(
            (pre + "/"@ + seq![bucket(hash@)] + "/"@ + hash@, pre + "/bucket/U"@),
        ),
        pairs(r@).contains(
            (pre + "/"@ + seq![bucket(hash@)] + "/"@ + lower_ascii(hash@), pre + "/bucket/L"@),
        ),
{
    reveal_strlit("/flat/");
    reveal_strlit("/flat/U");
    reveal_strlit("/flat/L");
    reveal_strlit("/bucket/");
    reveal_strlit("/bucket/U");
    reveal_strlit("/bucket/L");
    reveal_strlit("U");
    reveal_strlit("L");
    assert(pre + "/flat/"@ + "U"@ =~= pre + "/flat/U"@);
    assert(pre + "/flat/"@ + "L"@ =~= pre + "/flat/L"@);
    assert(pre + "/bucket/"@ + "U"@ =~= pre + "/bucket/U"@);
    assert(pre + "/bucket/"@ + "L"@ =~= pre + "/bucket/L"@);
    let h = hash@;
    let a = probes_below("slices_v3"@, h);
    let b = probes_below("slices_v2"@, h);
    let c = probes_below("slices"@, h);
    let d = probes_below("sliceList"@, h);
    let e = probes_below("chunks"@, h);
    let all = a + b + c + d + e;
    let k: int = if pre == "slices_v3"@ {
        0
    } else if pre == "slices_v2"@ {
        4
    } else if pre == "slices"@ {
        8
    } else if pre == "sliceList"@ {
        12
    } else {
        16
    };
    let p = probes_below(pre, h);
    assert(all[k] == p[0]);
    assert(all[k + 1] == p[1]);
    assert(all[k + 2] == p[2]);
    assert(all[k + 3] == p[3]);
}

/// What could not be unpacked is told of with its beginning: sixteen bytes of it in lower
/// case, or all where there are fewer.
pub proof fn law_beginning_is_told(data: Seq<u8>, n: int)
    requires
        0 <= n,
    ensures
        data.len() <= n ==> first_bytes(data, n) == data,
        data.len() > n ==> first_bytes(data, n) == data.subrange(0, n),
        occurs(
            unpack_words(CompressionMethod::Deflate, 2, data),
            lower_ascii(hex_text(first_bytes(data, 16))),
        ),
        occurs(unpack_words(CompressionMethod::Deflate, 2, data), decimal(data.len())),
{
    if data.len() > n {
        assert(data.take(n) =~= data.subrange(0, n));
    }
    let head = lower_ascii(hex_text(first_bytes(data, 16)));
    let count = decimal(data.len());
    let a = "deflate decompress (method="@ + signed(2) + ", "@;
    let b = " bytes, zlib_header="@ + flag(looks_zlib(data)) + ", head="@;
    let s = unpack_words(CompressionMethod::Deflate, 2, data);
    assert(s =~= (a + count + b) + head + ")"@);
    law_text_around_another(a + count + b, head, ")"@);
    assert(s =~= a + count + (b + head + ")"@));
    law_text_around_another(a, count, b + head + ")"@);
}

} // verus!
