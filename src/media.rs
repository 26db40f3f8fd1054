//! Media kinds: what a file is, from its first bytes or else its name.
use vstd::prelude::*;

verus! {

/// The kind of media a file holds.
#[derive(Debug, Clone, Copy, PartialEq, Eq, Structural)]
pub enum MediaKind {
    Image,
    Video,
    Audio,
    Pdf,
    Text,
    Archive,
    Other,
}

impl MediaKind {
    /// The icon shown for this kind.
    pub fn icon_name(&self) -> (r: &'static str)
        ensures
            r@ == match self {
                MediaKind::Image => "heroicons:photo"@,
                MediaKind::Video => "heroicons:play-circle"@,
                MediaKind::Audio => "heroicons:musical-note"@,
                MediaKind::Pdf => "heroicons:document-text"@,
                MediaKind::Text => "heroicons:document"@,
                MediaKind::Archive => "heroicons:archive-box"@,
                MediaKind::Other => "heroicons:document"@,
            },
    {
        match self {
            MediaKind::Image => "heroicons:photo",
            MediaKind::Video => "heroicons:play-circle",
            MediaKind::Audio => "heroicons:musical-note",
            MediaKind::Pdf => "heroicons:document-text",
            MediaKind::Text => "heroicons:document",
            MediaKind::Archive => "heroicons:archive-box",
            MediaKind::Other => "heroicons:document",
        }
    }

    /// Whether files of this kind get a thumbnail: still images and videos.
    pub fn has_thumbnail(&self) -> (r: bool)
        ensures
            r == (*self == MediaKind::Image || *self == MediaKind::Video),
    {
        match self {
            MediaKind::Image | MediaKind::Video => true,
            _ => false,
        }
    }
}

/// The icon shown for a directory.
pub fn folder_icon() -> (r: &'static str)
    ensures
        r@ == "heroicons:folder"@,
{
    "heroicons:folder"
}

pub open spec fn has_prefix(s: Seq<char>, p: Seq<char>) -> bool {
    p.len() <= s.len() && s.subrange(0, p.len() as int) == p
}

/// Whether `s` begins with `p`.
pub fn starts_with_text(s: &str, p: &str) -> (r: bool)
    ensures
        r == has_prefix(s@, p@),
{
    let n = s.unicode_len();
    let m = p.unicode_len();
    if m > n {
        return false;
    }
    let mut i: usize = 0;
    while i < m
        invariant
            n == s@.len(),
            m == p@.len(),
            m <= n,
            0 <= i <= m,
            forall|j: int| 0 <= j < i ==> s@[j] == p@[j],
        decreases m - i,
    {
        if s.get_char(i) != p.get_char(i) {
            assert(s@.subrange(0, m as int)[i as int] != p@[i as int]);
            return false;
        }
        i = i + 1;
    }
    assert(s@.subrange(0, m as int) =~= p@);
    true
}

/// Whether two texts are equal.
pub fn same_text(a: &str, b: &str) -> (r: bool)
    ensures
        r == (a@ == b@),
{
    let r = a.unicode_len() == b.unicode_len() && starts_with_text(a, b);
    proof {
        if a@.len() == b@.len() {
            assert(a@ =~= a@.subrange(0, b@.len() as int));
        }
    }
    r
}

/// The kind of a MIME type written in lower case.
pub open spec fn kind_of_mime(m: Seq<char>) -> MediaKind {
    if has_prefix(m, "image/"@) {
        MediaKind::Image
    } else if has_prefix(m, "video/"@) {
        MediaKind::Video
    } else if has_prefix(m, "audio/"@) {
        MediaKind::Audio
    } else if m == "application/pdf"@ {
        MediaKind::Pdf
    } else if has_prefix(m, "text/"@) || m == "application/json"@ || m == "application/xml"@
        || m == "application/javascript"@ {
        MediaKind::Text
    } else if m == "application/zip"@ || m == "application/x-rar-compressed"@ || m
        == "application/x-tar"@ || m == "application/gzip"@ || m == "application/x-7z-compressed"@ {
        MediaKind::Archive
    } else {
        MediaKind::Other
    }
}

/// The kind of a MIME type that is already in lower case.
pub fn kind_of_lowercase_mime(m: &str) -> (r: MediaKind)
    ensures
        r == kind_of_mime(m@),
{
    if starts_with_text(m, "image/") {
        MediaKind::Image
    } else if starts_with_text(m, "video/") {
        MediaKind::Video
    } else if starts_with_text(m, "audio/") {
        MediaKind::Audio
    } else if same_text(m, "application/pdf") {
        MediaKind::Pdf
    } else if starts_with_text(m, "text/") || same_text(m, "application/json") || same_text(
        m,
        "application/xml",
    ) || same_text(m, "application/javascript") {
        MediaKind::Text
    } else if same_text(m, "application/zip") || same_text(m, "application/x-rar-compressed")
        || same_text(m, "application/x-tar") || same_text(m, "application/gzip") || same_text(
        m,
        "application/x-7z-compressed",
    ) {
        MediaKind::Archive
    } else {
        MediaKind::Other
    }
}

/// What `str::to_lowercase` gives for a text.
pub uninterp spec fn lower_of(s: Seq<char>) -> Seq<char>;

/// Relies on `str::to_lowercase`: its result depends on the characters alone.
#[verifier::external_body]
pub(crate) fn lowercase(s: &str) -> (r: String)
    ensures
        r@ == lower_of(s@),
{
    s.to_lowercase()
}

/// The kind of a MIME type, in any case.
pub fn media_kind_from_mime(mime: &str) -> (r: MediaKind)
    ensures
        r == kind_of_mime(lower_of(mime@)),
{
    let lower = lowercase(mime);
    kind_of_lowercase_mime(lower.as_str())
}

/// The MIME type that `infer::get` recognizes in the first bytes of a file.
pub uninterp spec fn sniffed_mime(head: Seq<u8>) -> Option<Seq<char>>;

/// The MIME type that `mime_guess` gives for a path's extension, or
/// `application/octet-stream`.
pub uninterp spec fn guessed_mime(path: Seq<char>) -> Seq<char>;

pub open spec fn string_opt_view(o: Option<String>) -> Option<Seq<char>> {
    match o {
        Some(s) => Some(s@),
        None => None,
    }
}

/// Relies on `infer::get`: the type recognized from the magic bytes of the
/// buffer, a function of the bytes alone.
#[verifier::external_body]
fn sniff_mime(head: &[u8]) -> (r: Option<String>)
    ensures
        string_opt_view(r) == sniffed_mime(head@),
{
    match infer::get(head) {
        Some(t) => Some(t.mime_type().to_string()),
        None => None,
    }
}

/// Relies on `mime_guess::from_path` and `MimeGuess::first_or_octet_stream`:
/// the first type known for the path's extension, a function of the path alone.
#[verifier::external_body]
fn guess_mime(path: &str) -> (r: String)
    ensures
        r@ == guessed_mime(path@),
{
    mime_guess::from_path(path).first_or_octet_stream().to_string()
}

/// The MIME type of a file: the one its first bytes show, or else the one
/// its extension suggests.
pub open spec fn detected_mime(head: Seq<u8>, path: Seq<char>) -> Seq<char> {
    match sniffed_mime(head) {
        Some(m) => m,
        None => guessed_mime(path),
    }
}

/// Detects the MIME type and media kind of a file from its first bytes
/// (up to 8192 of them) and its path.
pub fn detect(head: &[u8], path: &str) -> (r: (String, MediaKind))
    ensures
        r.0@ == detected_mime(head@, path@),
        r.1 == kind_of_mime(lower_of(r.0@)),
{
    let mime = match sniff_mime(head) {
        Some(m) => m,
        None => guess_mime(path),
    };
    let kind = media_kind_from_mime(mime.as_str());
    (mime, kind)
}

} // verus!
