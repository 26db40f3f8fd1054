//! Cache keys and artifact locations. A key depends on the request path text
//! and the generation parameters alone, never on the file's content.
use vstd::prelude::*;
use crate::text::{decimal_text, push_char, u64_text};

verus! {

/// The lower-case hexadecimal BLAKE3 digest of a text's UTF-8 bytes.
pub uninterp spec fn digest_hex(s: Seq<char>) -> Seq<char>;

/// Relies on `blake3::hash` and the `Display` of `blake3::Hash`, which writes
/// the 32-byte digest as 64 lower-case hexadecimal digits.
#[verifier::external_body]
pub(crate) fn path_digest(s: &str) -> (r: String)
    ensures
        r@ == digest_hex(s@),
        r@.len() == 64,
{
    blake3::hash(s.as_bytes()).to_string()
}

/// The entry `name` of directory `dir`.
pub open spec fn child_path(dir: Seq<char>, name: Seq<char>) -> Seq<char> {
    if dir.len() > 0 && dir.last() == '/' {
        dir + name
    } else {
        dir + seq!['/'] + name
    }
}

/// The path of entry `name` in directory `dir`.
pub fn child(dir: &str, name: &str) -> (r: String)
    ensures
        r@ == child_path(dir@, name@),
{
    let mut r = dir.to_owned();
    let n = dir.unicode_len();
    if !(n > 0 && dir.get_char(n - 1) == '/') {
        push_char(&mut r, '/');
    }
    r.append(name);
    r
}

/// The key of a thumbnail: the digest of the request path, then the width.
pub open spec fn thumb_key_text(digest: Seq<char>, width: u32) -> Seq<char> {
    digest + seq!['-', 'w'] + decimal_text(width as nat)
}

/// The key of a thumbnail from the digest of its request path.
pub fn thumb_key_from_digest(digest: &str, width: u32) -> (r: String)
    ensures
        r@ == thumb_key_text(digest@, width),
{
    let mut r = digest.to_owned();
    push_char(&mut r, '-');
    push_char(&mut r, 'w');
    let w = u64_text(width as u64);
    r.append(w.as_str());
    r
}

/// The key of the thumbnail of `rel_path` at `width`.
pub fn thumb_cache_key(rel_path: &str, width: u32) -> (r: String)
    ensures
        r@ == thumb_key_text(digest_hex(rel_path@), width),
{
    let d = path_digest(rel_path);
    thumb_key_from_digest(d.as_str(), width)
}

/// The directory of thumbnails: `.cache/thumbs` under the sandbox root.
pub open spec fn thumb_dir_text(base: Seq<char>) -> Seq<char> {
    child_path(child_path(base, ".cache"@), "thumbs"@)
}

pub fn thumb_dir(base: &str) -> (r: String)
    ensures
        r@ == thumb_dir_text(base@),
{
    let c = child(base, ".cache");
    child(c.as_str(), "thumbs")
}

/// The file of the thumbnail with key `key`.
pub open spec fn thumb_file_text(base: Seq<char>, key: Seq<char>) -> Seq<char> {
    child_path(thumb_dir_text(base), key + ".jpg"@)
}

pub fn thumb_file(base: &str, key: &str) -> (r: String)
    ensures
        r@ == thumb_file_text(base@, key@),
{
    let d = thumb_dir(base);
    let mut name = key.to_owned();
    name.append(".jpg");
    child(d.as_str(), name.as_str())
}

/// The directory of the preview frames of a video, from the digest of its
/// request path: `.video-previews/<digest>` beside the video.
pub open spec fn preview_dir_text(video_dir: Seq<char>, digest: Seq<char>) -> Seq<char> {
    child_path(child_path(video_dir, ".video-previews"@), digest)
}

pub fn preview_dir_from_digest(video_dir: &str, digest: &str) -> (r: String)
    ensures
        r@ == preview_dir_text(video_dir@, digest@),
{
    let c = child(video_dir, ".video-previews");
    child(c.as_str(), digest)
}

} // verus!
