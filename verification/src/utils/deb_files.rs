//! Classification of the files inside a .deb package for preview.
use vstd::prelude::*;
use vstd::utf8::valid_utf8;

use crate::text::{all_ascii, ascii_lower, chars_eq_str, chars_of, lowercase, strip_dot_slash, strip_dot_slash_chars, string_of, to_lowercase};

verus! {

/// The kind of content that can be previewed.
#[derive(Debug, Clone, Copy, PartialEq, Eq, Structural)]
pub enum DebFileKind {
    Text,
    Image,
    Unsupported,
}

/// A single regular file inside the .deb package. Its content is not held
/// in memory: previewable files are cached on disk.
#[derive(Debug, Clone, PartialEq, Eq)]
pub struct DebFileEntry {
    /// Full path as stored in the archive (e.g. `./usr/bin/foo`).
    pub path: String,
    pub kind: DebFileKind,
    /// Where the cached copy lives (`None` for files that were not cached).
    pub cache_path: Option<String>,
}

/// Largest file previewed as text.
pub const MAX_TEXT_BYTES: usize = 4 * 1024 * 1024;

/// Largest file previewed as an image.
pub const MAX_IMAGE_BYTES: usize = 16 * 1024 * 1024;

/// How many leading bytes are searched for a NUL byte.
pub const SNIFF_BYTES: usize = 8192;

// ---------------------------------------------------------------------------
// Specification
// ---------------------------------------------------------------------------

/// What `Path::extension` gives for a path (as a string): the part of the
/// final component after its last `.`, if there is one. It depends on the
/// path alone.
pub uninterp spec fn path_extension(path: Seq<char>) -> Option<Seq<char>>;

/// The part of `s` after its last `c`, or `None` when `c` does not occur.
pub open spec fn after_last(s: Seq<char>, c: char) -> Option<Seq<char>>
    decreases s.len(),
{
    if s.len() == 0 {
        None
    } else if s.last() == c {
        Some(Seq::empty())
    } else {
        match after_last(s.drop_last(), c) {
            Some(t) => Some(t.push(s.last())),
            None => None,
        }
    }
}

/// The part of a path after its last `/` (all of it when it has none).
pub open spec fn final_part(path: Seq<char>) -> Seq<char> {
    match after_last(path, '/') {
        Some(t) => t,
        None => path,
    }
}

/// What `Path::extension` gives for a path where its documentation settles
/// it from the final part alone (`None` elsewhere): no extension when the
/// final part is non-empty and holds no `.`; the part after the last `.`
/// when that part and the stem before it are non-empty and the final part
/// holds no `\\` or `:` (which some platforms read as separators).
pub open spec fn settled_extension(path: Seq<char>) -> Option<Option<Seq<char>>> {
    let f = final_part(path);
    match after_last(f, '.') {
        None => if f.len() > 0 {
            Some(None)
        } else {
            None
        },
        Some(e) => if e.len() > 0 && e.len() + 1 < f.len() && !f.contains('\\') && !f.contains(
            ':',
        ) {
            Some(Some(e))
        } else {
            None
        },
    }
}

/// What is known of a path's extension: `path_extension` is what the
/// documentation settles, and an ASCII extension lowercases the ASCII way.
pub open spec fn extension_facts(path: Seq<char>) -> bool {
    &&& (settled_extension(path) matches Some(x) ==> path_extension(path) == x)
    &&& (path_extension(path) matches Some(e) ==> (all_ascii(e) ==> lowercase(e) == ascii_lower(e)))
}

/// The lowercased extension of a path, empty when it has none.
pub open spec fn lower_extension(path: Seq<char>) -> Seq<char> {
    lowercase(
        match path_extension(path) {
            Some(e) => e,
            None => Seq::empty(),
        },
    )
}

/// Extensions that are previewed as images.
pub open spec fn is_image_ext(e: Seq<char>) -> bool {
    ||| e == "png"@
    ||| e == "jpg"@
    ||| e == "jpeg"@
    ||| e == "gif"@
    ||| e == "bmp"@
    ||| e == "ico"@
    ||| e == "webp"@
    ||| e == "tiff"@
    ||| e == "tif"@
    ||| e == "svg"@
}

/// Extensions of files known to be binary.
pub open spec fn is_binary_ext(e: Seq<char>) -> bool {
    ||| e == "so"@
    ||| e == "a"@
    ||| e == "o"@
    ||| e == "ko"@
    ||| e == "deb"@
    ||| e == "ar"@
    ||| e == "gz"@
    ||| e == "xz"@
    ||| e == "bz2"@
    ||| e == "zst"@
    ||| e == "lz4"@
    ||| e == "lzma"@
    ||| e == "zip"@
    ||| e == "tar"@
    ||| e == "whl"@
    ||| e == "egg"@
    ||| e == "pyc"@
    ||| e == "pyo"@
    ||| e == "class"@
    ||| e == "jar"@
    ||| e == "war"@
    ||| e == "exe"@
    ||| e == "dll"@
    ||| e == "dylib"@
    ||| e == "bin"@
    ||| e == "elf"@
    ||| e == "db"@
    ||| e == "sqlite"@
    ||| e == "sqlite3"@
    ||| e == "mp3"@
    ||| e == "mp4"@
    ||| e == "ogg"@
    ||| e == "wav"@
    ||| e == "flac"@
    ||| e == "aac"@
    ||| e == "mkv"@
    ||| e == "avi"@
    ||| e == "mov"@
    ||| e == "ttf"@
    ||| e == "otf"@
    ||| e == "woff"@
    ||| e == "woff2"@
    ||| e == "eot"@
    ||| e == "pdf"@
}

/// `d` begins with the bytes `p`.
pub open spec fn starts_with(d: Seq<u8>, p: Seq<u8>) -> bool {
    p.len() <= d.len() && d.take(p.len() as int) == p
}

/// The signature of a PNG, JPEG, GIF, BMP or WebP image at the start of
/// data of at least 4 bytes.
pub open spec fn image_magic(d: Seq<u8>) -> bool {
    &&& d.len() >= 4
    &&& {
        ||| starts_with(d, seq![0x89u8, 0x50u8, 0x4eu8, 0x47u8])
        ||| starts_with(d, seq![0xffu8, 0xd8u8, 0xffu8])
        ||| starts_with(d, seq![0x47u8, 0x49u8, 0x46u8, 0x38u8, 0x37u8, 0x61u8])
        ||| starts_with(d, seq![0x47u8, 0x49u8, 0x46u8, 0x38u8, 0x39u8, 0x61u8])
        ||| starts_with(d, seq![0x42u8, 0x4du8])
        ||| (d.len() >= 12 && d.subrange(0, 4) == seq![0x52u8, 0x49u8, 0x46u8, 0x46u8]
            && d.subrange(8, 12) == seq![0x57u8, 0x45u8, 0x42u8, 0x50u8])
    }
}

/// A NUL byte among the first `SNIFF_BYTES` bytes.
pub open spec fn has_early_nul(d: Seq<u8>) -> bool {
    exists|i: int| 0 <= i < d.len() && i < SNIFF_BYTES && d[i] == 0u8
}

/// The kind of a file with lowercased extension `ext` and content `d`:
/// images (by extension or signature) up to `max_image` bytes; otherwise
/// text when it is at most `max_text` bytes, has no early NUL byte and is
/// well-formed UTF-8; otherwise unsupported.
pub open spec fn classify(
    ext: Seq<char>,
    d: Seq<u8>,
    max_text: int,
    max_image: int,
    utf8: bool,
) -> DebFileKind {
    if is_image_ext(ext) || image_magic(d) {
        if d.len() <= max_image {
            DebFileKind::Image
        } else {
            DebFileKind::Unsupported
        }
    } else if d.len() > max_text {
        DebFileKind::Unsupported
    } else if has_early_nul(d) {
        DebFileKind::Unsupported
    } else if utf8 {
        DebFileKind::Text
    } else {
        DebFileKind::Unsupported
    }
}

/// An archive entry is listed as unsupported without its content being
/// read when its extension is a known binary one or it is larger than any
/// previewable file.
pub open spec fn skipped_unread(path: Seq<char>, size: u64) -> bool {
    is_binary_ext(lower_extension(path)) || size > MAX_IMAGE_BYTES
}

// ---------------------------------------------------------------------------
// Laws
// ---------------------------------------------------------------------------

/// A file with one of the image extensions png, jpg, jpeg, gif, bmp, ico,
/// webp, tiff, tif or svg (lowercased) is previewed as an image when it is
/// no larger than the image limit, and is unsupported when it is larger,
/// whatever its content.
pub proof fn law_image_extensions(
    e: Seq<char>,
    d: Seq<u8>,
    max_text: int,
    max_image: int,
    utf8: bool,
)
    requires
        e == "png"@ || e == "jpg"@ || e == "jpeg"@ || e == "gif"@ || e == "bmp"@ || e == "ico"@
            || e == "webp"@ || e == "tiff"@ || e == "tif"@ || e == "svg"@,
    ensures
        d.len() <= max_image ==> classify(e, d, max_text, max_image, utf8) == DebFileKind::Image,
        d.len() > max_image ==> classify(e, d, max_text, max_image, utf8)
            == DebFileKind::Unsupported,
{
}

/// A file that is no image (by extension or signature) is previewed as
/// text exactly when it is at most `max_text` bytes, none of its first
/// 8192 bytes is NUL, and it is well-formed UTF-8; otherwise it is
/// unsupported.
pub proof fn law_text_files(e: Seq<char>, d: Seq<u8>, max_text: int, max_image: int, utf8: bool)
    requires
        !is_image_ext(e),
        !image_magic(d),
    ensures
        classify(e, d, max_text, max_image, utf8) == DebFileKind::Text <==> (d.len() <= max_text
            && (forall|i: int| 0 <= i < d.len() && i < 8192 ==> d[i] != 0u8) && utf8),
        classify(e, d, max_text, max_image, utf8) != DebFileKind::Image,
{
}

/// Data that starts with the PNG signature is previewed as an image when it
/// is no larger than the image limit, whatever its extension.
pub proof fn law_png_signature(e: Seq<char>, d: Seq<u8>, max_text: int, max_image: int, utf8: bool)
    requires
        d.len() >= 8,
        d[0] == 0x89u8 && d[1] == 0x50u8 && d[2] == 0x4eu8 && d[3] == 0x47u8,
        d.len() <= max_image,
    ensures
        classify(e, d, max_text, max_image, utf8) == DebFileKind::Image,
{
    assert(d.take(4) =~= seq![0x89u8, 0x50u8, 0x4eu8, 0x47u8]);
}

// ---------------------------------------------------------------------------
// Outside calls
// ---------------------------------------------------------------------------

/// `Path::extension` of a path given as a string (the extension of a
/// `str` path is always valid UTF-8); its result is named by
/// `path_extension`. Where its documentation settles the result from the
/// part after the last `/` (see `settled_extension`), the result is that;
/// what `Path` makes of other paths is left unsaid.
#[verifier::external_body]
pub(crate) fn extension_of(path: &str) -> (r: Option<String>)
    ensures
        match r {
            Some(e) => path_extension(path@) == Some(e@),
            None => path_extension(path@).is_none(),
        },
        settled_extension(path@) matches Some(x) ==> match x {
            Some(e) => r matches Some(y) && y@ == e,
            None => r.is_none(),
        },
{
    match std::path::Path::new(path).extension() {
        Some(e) => e.to_str().map(String::from),
        None => None,
    }
}

/// `str::from_utf8` succeeds exactly on well-formed UTF-8.
#[verifier::external_body]
fn is_utf8(data: &[u8]) -> (r: bool)
    ensures
        r == valid_utf8(data@),
{
    std::str::from_utf8(data).is_ok()
}

// ---------------------------------------------------------------------------
// Implementation
// ---------------------------------------------------------------------------

/// The lowercased extension of a path, empty when it has none.
pub fn lowercase_extension(path: &str) -> (r: String)
    ensures
        r@ == lower_extension(path@),
        path_extension(path@).is_none() ==> r@.len() == 0,
        extension_facts(path@),
{
    let ext = match extension_of(path) {
        Some(e) => e,
        None => String::new(),
    };
    let r = to_lowercase(ext.as_str());
    assert(ext@.len() == 0 ==> ascii_lower(ext@).len() == 0);
    r
}

/// Whether a lowercased extension is one of the image extensions.
pub fn is_image_extension(ext: &str) -> (r: bool)
    ensures
        r == is_image_ext(ext@),
{
    let e = chars_of(ext);
    let e = e.as_slice();
    chars_eq_str(e, "png") || chars_eq_str(e, "jpg") || chars_eq_str(e, "jpeg") || chars_eq_str(
        e,
        "gif",
    ) || chars_eq_str(e, "bmp") || chars_eq_str(e, "ico") || chars_eq_str(e, "webp")
        || chars_eq_str(e, "tiff") || chars_eq_str(e, "tif") || chars_eq_str(e, "svg")
}

/// Whether a lowercased extension is one of the known binary extensions.
pub fn is_binary_extension(ext: &str) -> (r: bool)
    ensures
        r == is_binary_ext(ext@),
{
    let e = chars_of(ext);
    let e = e.as_slice();
    chars_eq_str(e, "so") || chars_eq_str(e, "a") || chars_eq_str(e, "o") || chars_eq_str(e, "ko")
        || chars_eq_str(e, "deb") || chars_eq_str(e, "ar") || chars_eq_str(e, "gz")
        || chars_eq_str(e, "xz") || chars_eq_str(e, "bz2") || chars_eq_str(e, "zst")
        || chars_eq_str(e, "lz4") || chars_eq_str(e, "lzma") || chars_eq_str(e, "zip")
        || chars_eq_str(e, "tar") || chars_eq_str(e, "whl") || chars_eq_str(e, "egg")
        || chars_eq_str(e, "pyc") || chars_eq_str(e, "pyo") || chars_eq_str(e, "class")
        || chars_eq_str(e, "jar") || chars_eq_str(e, "war") || chars_eq_str(e, "exe")
        || chars_eq_str(e, "dll") || chars_eq_str(e, "dylib") || chars_eq_str(e, "bin")
        || chars_eq_str(e, "elf") || chars_eq_str(e, "db") || chars_eq_str(e, "sqlite")
        || chars_eq_str(e, "sqlite3") || chars_eq_str(e, "mp3") || chars_eq_str(e, "mp4")
        || chars_eq_str(e, "ogg") || chars_eq_str(e, "wav") || chars_eq_str(e, "flac")
        || chars_eq_str(e, "aac") || chars_eq_str(e, "mkv") || chars_eq_str(e, "avi")
        || chars_eq_str(e, "mov") || chars_eq_str(e, "ttf") || chars_eq_str(e, "otf")
        || chars_eq_str(e, "woff") || chars_eq_str(e, "woff2") || chars_eq_str(e, "eot")
        || chars_eq_str(e, "pdf")
}

/// Whether the path has a known binary extension (case-insensitively).
pub fn is_known_binary_ext(path: &str) -> (r: bool)
    ensures
        r == is_binary_ext(lower_extension(path@)),
        extension_facts(path@),
{
    let ext = lowercase_extension(path);
    is_binary_extension(ext.as_str())
}

/// Whether `data` begins with the bytes `p`.
fn bytes_start_with(data: &[u8], p: &[u8]) -> (r: bool)
    ensures
        r == starts_with(data@, p@),
{
    if p.len() > data.len() {
        return false;
    }
    let mut i: usize = 0;
    while i < p.len()
        invariant
            p.len() <= data.len(),
            i <= p.len(),
            forall|k: int| 0 <= k < i ==> data@[k] == p@[k],
        decreases p.len() - i,
    {
        if data[i] != p[i] {
            assert(data@.take(p.len() as int)[i as int] != p@[i as int]);
            return false;
        }
        i = i + 1;
    }
    assert(data@.take(p.len() as int) =~= p@);
    true
}

/// Whether the data begins with a PNG, JPEG, GIF, BMP or WebP signature.
pub fn is_image_magic(data: &[u8]) -> (r: bool)
    ensures
        r == image_magic(data@),
{
    if data.len() < 4 {
        return false;
    }
    let png: [u8; 4] = [0x89, 0x50, 0x4e, 0x47];
    let jpeg: [u8; 3] = [0xff, 0xd8, 0xff];
    let gif7: [u8; 6] = [0x47, 0x49, 0x46, 0x38, 0x37, 0x61];
    let gif9: [u8; 6] = [0x47, 0x49, 0x46, 0x38, 0x39, 0x61];
    let bmp: [u8; 2] = [0x42, 0x4d];
    assert(png@ =~= seq![0x89u8, 0x50u8, 0x4eu8, 0x47u8]);
    assert(jpeg@ =~= seq![0xffu8, 0xd8u8, 0xffu8]);
    assert(gif7@ =~= seq![0x47u8, 0x49u8, 0x46u8, 0x38u8, 0x37u8, 0x61u8]);
    assert(gif9@ =~= seq![0x47u8, 0x49u8, 0x46u8, 0x38u8, 0x39u8, 0x61u8]);
    assert(bmp@ =~= seq![0x42u8, 0x4du8]);
    if bytes_start_with(data, &png) {
        return true;
    }
    if bytes_start_with(data, &jpeg) {
        return true;
    }
    if bytes_start_with(data, &gif7) || bytes_start_with(data, &gif9) {
        return true;
    }
    if bytes_start_with(data, &bmp) {
        return true;
    }
    if data.len() >= 12 && data[0] == 0x52 && data[1] == 0x49 && data[2] == 0x46 && data[3] == 0x46
        && data[8] == 0x57 && data[9] == 0x45 && data[10] == 0x42 && data[11] == 0x50 {
        assert(data@.subrange(0, 4) =~= seq![0x52u8, 0x49u8, 0x46u8, 0x46u8]);
        assert(data@.subrange(8, 12) =~= seq![0x57u8, 0x45u8, 0x42u8, 0x50u8]);
        return true;
    }
    proof {
        if data@.len() >= 12 && data@.subrange(0, 4) == seq![0x52u8, 0x49u8, 0x46u8, 0x46u8]
            && data@.subrange(8, 12) == seq![0x57u8, 0x45u8, 0x42u8, 0x50u8] {
            assert(data@.subrange(0, 4)[0] == data@[0]);
            assert(data@.subrange(0, 4)[1] == data@[1]);
            assert(data@.subrange(0, 4)[2] == data@[2]);
            assert(data@.subrange(0, 4)[3] == data@[3]);
            assert(data@.subrange(8, 12)[0] == data@[8]);
            assert(data@.subrange(8, 12)[1] == data@[9]);
            assert(data@.subrange(8, 12)[2] == data@[10]);
            assert(data@.subrange(8, 12)[3] == data@[11]);
        }
    }
    false
}

/// Whether a NUL byte occurs among the first `SNIFF_BYTES` bytes.
fn early_nul(data: &[u8]) -> (r: bool)
    ensures
        r == has_early_nul(data@),
{
    let n = if data.len() < SNIFF_BYTES {
        data.len()
    } else {
        SNIFF_BYTES
    };
    let mut i: usize = 0;
    while i < n
        invariant
            n <= data.len(),
            n <= SNIFF_BYTES,
            n == data.len() || n == SNIFF_BYTES,
            i <= n,
            forall|k: int| 0 <= k < i ==> data@[k] != 0u8,
        decreases n - i,
    {
        if data[i] == 0 {
            return true;
        }
        i = i + 1;
    }
    false
}

/// The kind of a file given its lowercased extension and content.
pub fn classify_file(ext: &str, data: &[u8], max_text: usize, max_image: usize) -> (r:
    DebFileKind)
    ensures
        r == classify(ext@, data@, max_text as int, max_image as int, valid_utf8(data@)),
{
    if is_image_extension(ext) || is_image_magic(data) {
        return if data.len() <= max_image {
            DebFileKind::Image
        } else {
            DebFileKind::Unsupported
        };
    }
    if data.len() > max_text {
        return DebFileKind::Unsupported;
    }
    if early_nul(data) {
        return DebFileKind::Unsupported;
    }
    if is_utf8(data) {
        DebFileKind::Text
    } else {
        DebFileKind::Unsupported
    }
}

/// The kind of the file at `path` with content `data`.
pub fn categorize(path: &str, data: &[u8], max_text: usize, max_image: usize) -> (r: DebFileKind)
    ensures
        r == classify(
            lower_extension(path@),
            data@,
            max_text as int,
            max_image as int,
            valid_utf8(data@),
        ),
        extension_facts(path@),
{
    let ext = lowercase_extension(path);
    classify_file(ext.as_str(), data, max_text, max_image)
}

/// Whether an archive entry is listed as unsupported without reading its
/// content.
pub fn is_skipped_unread(path: &str, size: u64) -> (r: bool)
    ensures
        r == skipped_unread(path@, size),
        extension_facts(path@),
{
    is_known_binary_ext(path) || size > MAX_IMAGE_BYTES as u64
}

/// The entry of a file listed without reading its content.
pub fn unread_entry(path: String) -> (r: DebFileEntry)
    ensures
        r.path == path,
        r.kind == DebFileKind::Unsupported,
        r.cache_path.is_none(),
{
    DebFileEntry { path, kind: DebFileKind::Unsupported, cache_path: None }
}

/// Where a file of the given kind is cached, relative to the cache
/// directory: its archive path without leading `./`, and nowhere for
/// unsupported files.
pub fn cache_relative_path(path: &str, kind: DebFileKind) -> (r: Option<String>)
    ensures
        match kind {
            DebFileKind::Unsupported => r.is_none(),
            _ => r matches Some(p) && p@ == strip_dot_slash(path@),
        },
{
    match kind {
        DebFileKind::Unsupported => None,
        _ => {
            let cs = chars_of(path);
            let rel = strip_dot_slash_chars(cs.as_slice());
            Some(string_of(rel.as_slice()))
        },
    }
}

/// What becomes of an archive file whose content was read: its kind, under
/// the preview limits, and where it is cached relative to the cache
/// directory (nowhere for unsupported files).
pub fn plan_read_entry(path: &str, data: &[u8]) -> (r: (DebFileKind, Option<String>))
    ensures
        r.0 == classify(
            lower_extension(path@),
            data@,
            MAX_TEXT_BYTES as int,
            MAX_IMAGE_BYTES as int,
            valid_utf8(data@),
        ),
        match r.0 {
            DebFileKind::Unsupported => r.1.is_none(),
            _ => r.1 matches Some(p) && p@ == strip_dot_slash(path@),
        },
        extension_facts(path@),
{
    let kind = categorize(path, data, MAX_TEXT_BYTES, MAX_IMAGE_BYTES);
    let rel = cache_relative_path(path, kind);
    (kind, rel)
}

} // verus!
