//! The parameters that requests carry, and the decisions made on them
//! before any file is touched.
use vstd::prelude::*;
use crate::error::AppError;
use crate::media::{lower_of, lowercase, same_text, has_prefix};

verus! {

/// Parameters of a directory listing.
pub struct BrowseQuery {
    pub view: String,
    pub show_hidden: Option<bool>,
}

/// The listing layout used when none is asked for.
pub fn default_view() -> (r: String)
    ensures
        r@ == "list"@,
{
    "list".to_owned()
}

/// A yes/no parameter as written in a query: `true`, `1`, `yes`, `on` are
/// yes; `false`, `0`, `no`, `off` and the empty text are no; anything else
/// is as if it were absent.
pub open spec fn flag_from_text(s: Option<Seq<char>>) -> Option<bool> {
    match s {
        None => None,
        Some(t) => if t == "true"@ || t == "1"@ || t == "yes"@ || t == "on"@ {
            Some(true)
        } else if t == "false"@ || t == "0"@ || t == "no"@ || t == "off"@ || t.len() == 0 {
            Some(false)
        } else {
            None
        },
    }
}

/// Reads a yes/no query parameter.
pub fn flag_from_query(s: Option<&str>) -> (r: Option<bool>)
    ensures
        r == flag_from_text(match s {
            Some(t) => Some(t@),
            None => None,
        }),
{
    match s {
        None => None,
        Some(t) => if same_text(t, "true") || same_text(t, "1") || same_text(t, "yes") || same_text(
            t,
            "on",
        ) {
            Some(true)
        } else if same_text(t, "false") || same_text(t, "0") || same_text(t, "no") || same_text(
            t,
            "off",
        ) || t.unicode_len() == 0 {
            Some(false)
        } else {
            None
        },
    }
}

/// Parameters of a thumbnail request: the width asked for.
pub struct ThumbQuery {
    pub w: Option<u32>,
}

/// The width of a thumbnail: the one asked for, or the configured default.
pub fn thumb_width(query: &ThumbQuery, default_width: u32) -> (r: u32)
    ensures
        r == match query.w {
            Some(w) => w,
            None => default_width,
        },
{
    match query.w {
        Some(w) => w,
        None => default_width,
    }
}

/// Parameters of a search.
pub struct SearchQuery {
    pub q: String,
    pub limit: Option<usize>,
    pub show_hidden: Option<bool>,
}

/// Parameters of the search page.
pub struct SearchPageQuery {
    pub q: String,
}

/// One search result as listed.
pub struct SearchResultItem {
    pub name: String,
    pub rel_path: String,
    pub encoded_path: String,
    pub is_dir: bool,
    pub size: String,
    pub modified: String,
}

/// How many results a search returns: 200 unless asked, at most 10000.
pub open spec fn search_limit_of(limit: Option<usize>) -> usize {
    match limit {
        Some(l) => if l <= 10000 {
            l
        } else {
            10000
        },
        None => 200,
    }
}

/// A character with the Unicode `White_Space` property.
pub open spec fn is_white_space(c: char) -> bool {
    ('\t' <= c && c <= '\r') || c == ' ' || c == '\u{85}' || c == '\u{a0}' || c == '\u{1680}' || (
    '\u{2000}' <= c && c <= '\u{200a}') || c == '\u{2028}' || c == '\u{2029}' || c == '\u{202f}'
        || c == '\u{205f}' || c == '\u{3000}'
}

pub open spec fn trim_white_leading(s: Seq<char>) -> Seq<char>
    decreases s.len(),
{
    if s.len() > 0 && is_white_space(s[0]) {
        trim_white_leading(s.drop_first())
    } else {
        s
    }
}

pub open spec fn trim_white_trailing(s: Seq<char>) -> Seq<char>
    decreases s.len(),
{
    if s.len() > 0 && is_white_space(s.last()) {
        trim_white_trailing(s.drop_last())
    } else {
        s
    }
}

/// A text without the white space at its ends.
pub open spec fn trimmed(s: Seq<char>) -> Seq<char> {
    trim_white_trailing(trim_white_leading(s))
}

/// Relies on `str::trim`: the text without the characters of the Unicode
/// `White_Space` property at its ends.
#[verifier::external_body]
fn trim_text(s: &str) -> (r: &str)
    ensures
        r@ == trimmed(s@),
{
    s.trim()
}

/// Plans a search for an already trimmed query: an empty one is refused,
/// otherwise names are matched against its lower-case form.
pub fn plan_search_trimmed(q: &str, limit: Option<usize>) -> (r: Result<(String, usize), AppError>)
    ensures
        q@.len() == 0 <==> r matches Err(AppError::BadRequest(_)),
        r matches Ok((needle, l)) ==> needle@ == lower_of(q@) && l == search_limit_of(limit),
{
    if q.unicode_len() == 0 {
        return Err(AppError::BadRequest("parâmetro 'q' é obrigatório".to_owned()));
    }
    let l = match limit {
        Some(l) => if l <= 10000 {
            l
        } else {
            10000
        },
        None => 200,
    };
    Ok((lowercase(q), l))
}

/// Plans a search: the query is trimmed first.
pub fn plan_search(q: &str, limit: Option<usize>) -> (r: Result<(String, usize), AppError>)
    ensures
        trimmed(q@).len() == 0 <==> r matches Err(AppError::BadRequest(_)),
        r matches Ok((needle, l)) ==> needle@ == lower_of(trimmed(q@)) && l == search_limit_of(limit),
{
    plan_search_trimmed(trim_text(q), limit)
}

/// Whether `needle` occurs in `hay`.
pub open spec fn occurs_in(hay: Seq<char>, needle: Seq<char>) -> bool {
    exists|i: int| 0 <= i && i + needle.len() <= hay.len() && #[trigger] hay.subrange(i, i + needle.len()) == needle
}

/// Whether `needle` occurs in `hay`.
pub fn contains_text(hay: &str, needle: &str) -> (r: bool)
    ensures
        r == occurs_in(hay@, needle@),
{
    let n = hay.unicode_len();
    let m = needle.unicode_len();
    if m > n {
        return false;
    }
    if m == 0 {
        assert(hay@.subrange(0int, 0int + needle@.len()) =~= needle@);
        return true;
    }
    let mut i: usize = 0;
    while i <= n - m
        invariant
            n == hay@.len(),
            m == needle@.len(),
            0 < m <= n,
            0 <= i <= n - m + 1,
            forall|j: int| 0 <= j < i ==> #[trigger] hay@.subrange(j, j + m) != needle@,
        decreases n - m + 1 - i,
    {
        let part = hay.substring_char(i, i + m);
        if same_text(part, needle) {
            return true;
        }
        i = i + 1;
    }
    assert forall|j: int| 0 <= j && j + needle@.len() <= hay@.len() implies #[trigger] hay@.subrange(
        j,
        j + needle@.len(),
    ) != needle@ by {
        assert(j < i);
    }
    false
}

/// Whether an entry called `name` is a search result for `needle` (in
/// lower case): hidden names only when asked for, and a match ignoring case.
pub fn search_entry_matches(name: &str, needle: &str, show_hidden: bool) -> (r: bool)
    ensures
        r == ((show_hidden || !has_prefix(name@, "."@)) && occurs_in(lower_of(name@), needle@)),
{
    if !show_hidden && crate::media::starts_with_text(name, ".") {
        return false;
    }
    let lower = lowercase(name);
    contains_text(lower.as_str(), needle)
}

} // verus!
