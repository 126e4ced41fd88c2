//! Embedded images: the image relationships' targets read from the archive
//! and base64-encoded, with a MIME type from the file extension.

use base64::Engine;
use vstd::prelude::*;

use crate::archive::{lookup, Archive, EntryData, EntryDataModel, ArchiveEntryModel};
use crate::body::{to_lowercase, unicode_lowercase};
use crate::model::{Image, ImageModel};
use crate::path::{extension, file_name, path_extension, path_file_name};
use crate::text::{contains, contains_str, starts_with, starts_with_str, str_eq};

verus! {

// ── Base64 ────────────────────────────────────────────────────────────────────

/// The character for a 6-bit value in the standard alphabet
/// (`A`–`Z`, `a`–`z`, `0`–`9`, `+`, `/`).
pub open spec fn b64_digit(v: int) -> char {
    if v < 26 {
        (65 + v) as char
    } else if v < 52 {
        (97 + v - 26) as char
    } else if v < 62 {
        (48 + v - 52) as char
    } else if v == 62 {
        '+'
    } else {
        '/'
    }
}

/// Base64 with the standard alphabet and `=` padding (RFC 4648, section 4):
/// each group of three bytes becomes four characters; a final group of one
/// or two bytes is padded.
pub open spec fn base64_of(b: Seq<u8>) -> Seq<char>
    decreases b.len(),
{
    if b.len() == 0 {
        Seq::empty()
    } else if b.len() == 1 {
        seq![b64_digit(b[0] as int / 4), b64_digit((b[0] as int % 4) * 16), '=', '=']
    } else if b.len() == 2 {
        seq![
            b64_digit(b[0] as int / 4),
            b64_digit((b[0] as int % 4) * 16 + b[1] as int / 16),
            b64_digit((b[1] as int % 16) * 4),
            '=',
        ]
    } else {
        seq![
            b64_digit(b[0] as int / 4),
            b64_digit((b[0] as int % 4) * 16 + b[1] as int / 16),
            b64_digit((b[1] as int % 16) * 4 + b[2] as int / 64),
            b64_digit(b[2] as int % 64),
        ] + base64_of(b.skip(3))
    }
}

/// `base64::engine::general_purpose::STANDARD.encode`. Claimed (the
/// engine's documentation: the standard alphabet, with padding): the
/// result is `base64_of(bytes)`.
#[verifier::external_body]
fn base64_encode(bytes: &[u8]) -> (s: String)
    ensures
        s@ == base64_of(bytes@),
{
    base64::engine::general_purpose::STANDARD.encode(bytes)
}

// ── MIME types and paths ──────────────────────────────────────────────────────

/// The MIME type for a (lowercase) file extension, where it is a supported
/// image format.
pub open spec fn mime_for_ext(ext: Seq<char>) -> Option<Seq<char>> {
    if ext == "png"@ {
        Some("image/png"@)
    } else if ext == "jpg"@ || ext == "jpeg"@ {
        Some("image/jpeg"@)
    } else if ext == "gif"@ {
        Some("image/gif"@)
    } else if ext == "bmp"@ {
        Some("image/bmp"@)
    } else if ext == "tiff"@ || ext == "tif"@ {
        Some("image/tiff"@)
    } else if ext == "webp"@ {
        Some("image/webp"@)
    } else {
        None
    }
}

/// The MIME type of an image path, by its extension in lowercase.
pub open spec fn image_mime(path: Seq<char>) -> Option<Seq<char>> {
    match path_extension(path) {
        Some(e) => mime_for_ext(unicode_lowercase(e)),
        None => None,
    }
}

/// A path that could leave the package: it holds `..` or starts with a
/// slash or a backslash.
pub open spec fn unsafe_path(path: Seq<char>) -> bool {
    contains_str(path, ".."@) || starts_with_str(path, "/"@) || starts_with_str(path, "\\"@)
}

/// The id of an image: the file name of its path, or the whole path.
pub open spec fn image_id(path: Seq<char>) -> Seq<char> {
    match path_file_name(path) {
        Some(n) => n,
        None => path,
    }
}

fn mime_for(ext: &str) -> (r: Option<String>)
    ensures
        r.deep_view() == mime_for_ext(ext@),
{
    if str_eq(ext, "png") {
        Some("image/png".to_owned())
    } else if str_eq(ext, "jpg") || str_eq(ext, "jpeg") {
        Some("image/jpeg".to_owned())
    } else if str_eq(ext, "gif") {
        Some("image/gif".to_owned())
    } else if str_eq(ext, "bmp") {
        Some("image/bmp".to_owned())
    } else if str_eq(ext, "tiff") || str_eq(ext, "tif") {
        Some("image/tiff".to_owned())
    } else if str_eq(ext, "webp") {
        Some("image/webp".to_owned())
    } else {
        None
    }
}

/// The MIME type of an image path, where its extension is a supported
/// image format (any case).
pub fn mime_type_of(path: &str) -> (r: Option<String>)
    ensures
        r.deep_view() == image_mime(path@),
{
    match extension(path) {
        Some(e) => {
            let lower = to_lowercase(e.as_str());
            mime_for(lower.as_str())
        },
        None => None,
    }
}

/// Whether an image path could leave the package.
pub fn is_unsafe_path(path: &str) -> (r: bool)
    ensures
        r == unsafe_path(path@),
{
    contains(path, "..") || starts_with(path, "/") || starts_with(path, "\\")
}

// ── Images ────────────────────────────────────────────────────────────────────

/// One image relationship target: `Ok(None)` where it is skipped (not a
/// supported format, an unsafe path, not in the archive or not openable,
/// larger than `max` bytes); `Err` with the I/O message where reading it
/// failed; otherwise the image.
pub open spec fn image_step(entries: Seq<ArchiveEntryModel>, path: Seq<char>, max: u64) -> Result<
    Option<ImageModel>,
    Seq<char>,
> {
    match image_mime(path) {
        None => Ok(None),
        Some(mime) => if unsafe_path(path) {
            Ok(None)
        } else {
            match lookup(entries, path) {
                None => Ok(None),
                Some(e) => match e.data {
                    EntryDataModel::Unavailable => Ok(None),
                    EntryDataModel::Failed(m) => if e.size > max {
                        Ok(None)
                    } else {
                        Err(m)
                    },
                    EntryDataModel::Bytes(b) => if e.size > max {
                        Ok(None)
                    } else {
                        Ok(Some(ImageModel { id: image_id(path), mime_type: mime, base64: base64_of(b) }))
                    },
                },
            }
        },
    }
}

/// The images of a sequence of targets, in order, up to the first read
/// failure.
pub open spec fn images_of(entries: Seq<ArchiveEntryModel>, paths: Seq<Seq<char>>, max: u64) -> Result<
    Seq<ImageModel>,
    Seq<char>,
>
    decreases paths.len(),
{
    if paths.len() == 0 {
        Ok(Seq::empty())
    } else {
        match images_of(entries, paths.drop_last(), max) {
            Err(m) => Err(m),
            Ok(v) => match image_step(entries, paths.last(), max) {
                Err(m) => Err(m),
                Ok(None) => Ok(v),
                Ok(Some(im)) => Ok(v.push(im)),
            },
        }
    }
}

fn image_at(archive: &mut Archive, path: &String, max: u64) -> (r: Result<Option<Image>, String>)
    ensures
        final(archive).deep_view() == old(archive).deep_view(),
        match r {
            Ok(v) => image_step(old(archive).deep_view(), path@, max) == Ok::<
                Option<ImageModel>,
                Seq<char>,
            >(v.deep_view()),
            Err(m) => image_step(old(archive).deep_view(), path@, max) == Err::<
                Option<ImageModel>,
                Seq<char>,
            >(m@),
        },
{
    let mime = match mime_type_of(path.as_str()) {
        None => {
            return Ok(None);
        },
        Some(m) => m,
    };
    if is_unsafe_path(path.as_str()) {
        return Ok(None);
    }
    let i = match archive.position(path.as_str()) {
        None => {
            return Ok(None);
        },
        Some(i) => i,
    };
    let size = match archive.entry_size(i) {
        None => {
            return Ok(None);
        },
        Some(size) => size,
    };
    if size > max {
        return Ok(None);
    }
    match archive.entry_data(i) {
        EntryData::Unavailable => Ok(None),
        EntryData::Failed(m) => Err(m),
        EntryData::Bytes(b) => {
            let id = match file_name(path.as_str()) {
                Some(n) => n,
                None => path.clone(),
            };
            let base64 = base64_encode(b.as_slice());
            Ok(Some(Image { id, mime_type: mime, base64 }))
        },
    }
}

/// The images that the image relationships' targets `paths` point to, in
/// order: targets of an unsupported format, with an unsafe path, missing
/// from the archive or larger than `max_bytes` are skipped; `Err` with the
/// I/O message at the first target whose reading failed.
pub fn extract_images(archive: &mut Archive, paths: &Vec<String>, max_bytes: u64) -> (r: Result<
    Vec<Image>,
    String,
>)
    ensures
        final(archive).deep_view() == old(archive).deep_view(),
        match r {
            Ok(v) => images_of(old(archive).deep_view(), paths.deep_view(), max_bytes) == Ok::<
                Seq<ImageModel>,
                Seq<char>,
            >(v.deep_view()),
            Err(m) => images_of(old(archive).deep_view(), paths.deep_view(), max_bytes) == Err::<
                Seq<ImageModel>,
                Seq<char>,
            >(m@),
        },
{
    let ghost a = archive.deep_view();
    let mut out: Vec<Image> = Vec::new();
    let mut i: usize = 0;
    assert(paths.deep_view().take(0).len() == 0);
    assert(out.deep_view() =~= Seq::<ImageModel>::empty());
    while i < paths.len()
        invariant
            i <= paths.len(),
            archive.deep_view() == a,
            a == old(archive).deep_view(),
            images_of(a, paths.deep_view().take(i as int), max_bytes) == Ok::<
                Seq<ImageModel>,
                Seq<char>,
            >(out.deep_view()),
        decreases paths.len() - i,
    {
        let ghost pre = paths.deep_view().take(i + 1);
        assert(pre.drop_last() =~= paths.deep_view().take(i as int));
        assert(pre.last() == paths[i as int]@);
        match image_at(archive, &paths[i], max_bytes) {
            Err(m) => {
                proof {
                    lemma_images_err(a, paths.deep_view(), max_bytes, i + 1);
                }
                return Err(m);
            },
            Ok(None) => {},
            Ok(Some(im)) => {
                let ghost before = out.deep_view();
                out.push(im);
                assert(out.deep_view() =~= before.push(im.deep_view()));
            },
        }
        i = i + 1;
    }
    assert(paths.deep_view().take(i as int) =~= paths.deep_view());
    Ok(out)
}

/// Once reading fails on a prefix, the whole sequence fails with the same
/// message.
proof fn lemma_images_err(entries: Seq<ArchiveEntryModel>, paths: Seq<Seq<char>>, max: u64, k: int)
    requires
        0 <= k <= paths.len(),
        images_of(entries, paths.take(k), max) is Err,
    ensures
        images_of(entries, paths, max) == images_of(entries, paths.take(k), max),
    decreases paths.len() - k,
{
    if k < paths.len() {
        assert(paths.drop_last().take(k) =~= paths.take(k));
        lemma_images_err(entries, paths.drop_last(), max, k);
    } else {
        assert(paths.take(k) =~= paths);
    }
}

// ── Skipped images ────────────────────────────────────────────────────────────

/// Why an image target was skipped.
#[derive(Clone, Copy, Debug, PartialEq, Eq, Structural)]
pub enum SkipReason {
    /// Its extension is not a supported image format.
    Unsupported,
    /// Its path could leave the package.
    UnsafePath,
    /// There is no such entry, or it cannot be opened.
    NotFound,
    /// Its recorded size, larger than the limit.
    TooLarge(u64),
}

impl DeepView for SkipReason {
    type V = SkipReason;

    open spec fn deep_view(&self) -> SkipReason {
        *self
    }
}

/// Why the target `path` is skipped, if it is (the skips of `image_step`).
pub open spec fn skip_reason(entries: Seq<ArchiveEntryModel>, path: Seq<char>, max: u64) -> Option<
    SkipReason,
> {
    if image_mime(path) is None {
        Some(SkipReason::Unsupported)
    } else if unsafe_path(path) {
        Some(SkipReason::UnsafePath)
    } else {
        match lookup(entries, path) {
            None => Some(SkipReason::NotFound),
            Some(e) => if e.data is Unavailable {
                Some(SkipReason::NotFound)
            } else if e.size > max {
                Some(SkipReason::TooLarge(e.size))
            } else {
                None
            },
        }
    }
}

/// The skipped targets among `paths`, in order, each with its reason.
pub open spec fn skips_of(entries: Seq<ArchiveEntryModel>, paths: Seq<Seq<char>>, max: u64) -> Seq<
    (Seq<char>, SkipReason),
>
    decreases paths.len(),
{
    if paths.len() == 0 {
        Seq::empty()
    } else {
        let prev = skips_of(entries, paths.drop_last(), max);
        match skip_reason(entries, paths.last(), max) {
            Some(why) => prev.push((paths.last(), why)),
            None => prev,
        }
    }
}

fn skip_at(archive: &mut Archive, path: &String, max: u64) -> (r: Option<SkipReason>)
    ensures
        final(archive).deep_view() == old(archive).deep_view(),
        r == skip_reason(old(archive).deep_view(), path@, max),
{
    if mime_type_of(path.as_str()).is_none() {
        return Some(SkipReason::Unsupported);
    }
    if is_unsafe_path(path.as_str()) {
        return Some(SkipReason::UnsafePath);
    }
    let i = match archive.position(path.as_str()) {
        None => {
            return Some(SkipReason::NotFound);
        },
        Some(i) => i,
    };
    match archive.entry_size(i) {
        None => Some(SkipReason::NotFound),
        Some(size) => if size > max {
            Some(SkipReason::TooLarge(size))
        } else {
            None
        },
    }
}

/// The image targets that `extract_images` skips, in order, each with the
/// reason; no entry's data is read.
pub fn skipped_images(archive: &mut Archive, paths: &Vec<String>, max_bytes: u64) -> (r: Vec<
    (String, SkipReason),
>)
    ensures
        final(archive).deep_view() == old(archive).deep_view(),
        r.deep_view() == skips_of(old(archive).deep_view(), paths.deep_view(), max_bytes),
{
    let ghost a = archive.deep_view();
    let mut out: Vec<(String, SkipReason)> = Vec::new();
    let mut i: usize = 0;
    assert(paths.deep_view().take(0).len() == 0);
    assert(out.deep_view() =~= Seq::<(Seq<char>, SkipReason)>::empty());
    while i < paths.len()
        invariant
            i <= paths.len(),
            archive.deep_view() == a,
            a == old(archive).deep_view(),
            skips_of(a, paths.deep_view().take(i as int), max_bytes) == out.deep_view(),
        decreases paths.len() - i,
    {
        let ghost pre = paths.deep_view().take(i + 1);
        assert(pre.drop_last() =~= paths.deep_view().take(i as int));
        assert(pre.last() == paths[i as int]@);
        if let Some(why) = skip_at(archive, &paths[i], max_bytes) {
            let ghost before = out.deep_view();
            let p = paths[i].clone();
            out.push((p, why));
            assert(out.deep_view() =~= before.push((paths[i as int]@, why)));
        }
        i = i + 1;
    }
    assert(paths.deep_view().take(i as int) =~= paths.deep_view());
    out
}

} // verus!
