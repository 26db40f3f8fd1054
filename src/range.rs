//! Byte ranges for raw content: reading a `Range` header against a file size
//! and planning the status and headers of the response.
use vstd::prelude::*;
use crate::text::{parse_u64, parse_u64_spec, u64_text, decimal_text, push_char};

verus! {

pub open spec fn range_unit_prefix() -> Seq<char> {
    seq!['b', 'y', 't', 'e', 's', '=']
}

/// `k` is the one position of `-` in `r`.
pub open spec fn sole_dash_at(r: Seq<char>, k: int) -> bool {
    &&& 0 <= k < r.len()
    &&& r[k] == '-'
    &&& forall|j: int| 0 <= j < r.len() && j != k ==> r[j] != '-'
}

/// The bounds that the two sides of `<first>-<second>` give on a file of `size` bytes.
pub open spec fn range_bounds(first: Seq<char>, second: Seq<char>, size: u64) -> Option<(u64, u64)> {
    let start: Option<int> = if first.len() == 0 {
        match parse_u64_spec(second) {
            Some(n) => Some(if n >= size { 0int } else { size - n }),
            None => None,
        }
    } else {
        match parse_u64_spec(first) {
            Some(n) => Some(n as int),
            None => None,
        }
    };
    let end: Option<int> = if first.len() == 0 || second.len() == 0 {
        Some(size - 1)
    } else {
        match parse_u64_spec(second) {
            Some(n) => Some(if n <= size - 1 { n as int } else { size - 1 }),
            None => None,
        }
    };
    match (start, end) {
        (Some(s), Some(e)) => if s > e || s >= size {
            None
        } else {
            Some((s as u64, e as u64))
        },
        _ => None,
    }
}

/// The inclusive byte range that a `Range` header selects, if it is one that is honoured.
pub open spec fn parse_range_spec(header: Seq<char>, size: u64) -> Option<(u64, u64)> {
    if header.len() < 6 || header.subrange(0, 6) != range_unit_prefix() {
        None
    } else {
        let r = header.subrange(6, header.len() as int);
        if exists|k: int| sole_dash_at(r, k) {
            let k = choose|k: int| sole_dash_at(r, k);
            range_bounds(r.subrange(0, k), r.subrange(k + 1, r.len() as int), size)
        } else {
            None
        }
    }
}

/// Reads a `Range` header of the form `bytes=<start>-<end>` against a file of
/// `file_size` bytes. An empty start asks for the last `<end>` bytes, through
/// the end of the file; an empty end
/// runs to the end of the file, and an end past the file is clamped; a header
/// that does not parse, or a range that is empty or starts past the file,
/// gives `None`.
pub fn parse_range(range_header: &str, file_size: u64) -> (r: Option<(u64, u64)>)
    ensures
        r == parse_range_spec(range_header@, file_size),
        r matches Some((s, e)) ==> s <= e < file_size,
{
    let n = range_header.unicode_len();
    if n < 6 {
        return None;
    }
    let prefix = range_header.substring_char(0, 6);
    let mut i: usize = 0;
    while i < 6
        invariant
            0 <= i <= 6,
            6 <= range_header@.len(),
            prefix@ == range_header@.subrange(0, 6),
            forall|j: int| 0 <= j < i ==> prefix@[j] == range_unit_prefix()[j],
        decreases 6 - i,
    {
        let c = prefix.get_char(i);
        let expected = if i == 0 {
            'b'
        } else if i == 1 {
            'y'
        } else if i == 2 {
            't'
        } else if i == 3 {
            'e'
        } else if i == 4 {
            's'
        } else {
            '='
        };
        assert(expected == range_unit_prefix()[i as int]);
        if c != expected {
            assert(range_header@.subrange(0, 6)[i as int] != range_unit_prefix()[i as int]);
            return None;
        }
        i = i + 1;
    }
    assert(range_header@.subrange(0, 6) =~= range_unit_prefix());
    let rest = range_header.substring_char(6, n);
    let ghost r = range_header@.subrange(6, n as int);
    let m = rest.unicode_len();
    let mut dashes: usize = 0;
    let mut at: usize = 0;
    let mut j: usize = 0;
    while j < m
        invariant
            rest@ == r,
            m == r.len(),
            0 <= j <= m,
            dashes <= j,
            dashes == 0 ==> forall|q: int| 0 <= q < j ==> r[q] != '-',
            dashes >= 1 ==> at < j && r[at as int] == '-',
            dashes == 1 ==> forall|q: int| 0 <= q < j && q != at ==> r[q] != '-',
            dashes >= 2 ==> exists|q: int| 0 <= q < j && q != at && r[q] == '-',
        decreases m - j,
    {
        if rest.get_char(j) == '-' {
            if dashes == 0 {
                at = j;
            }
            dashes = dashes + 1;
        }
        j = j + 1;
    }
    if dashes != 1 {
        assert(!exists|k: int| sole_dash_at(r, k)) by {
            if dashes >= 2 {
                let q = choose|q: int| 0 <= q < m && q != at && r[q] == '-';
                assert forall|k: int| !sole_dash_at(r, k) by {
                    if sole_dash_at(r, k) {
                        assert(k == at);
                        assert(k == q);
                    }
                }
            }
        }
        return None;
    }
    assert(sole_dash_at(r, at as int));
    let ghost k = choose|k: int| sole_dash_at(r, k);
    assert(k == at);
    let first = rest.substring_char(0, at);
    let second = rest.substring_char(at + 1, m);
    let start: u64 = if at == 0 {
        match parse_u64(second) {
            Some(suffix) => file_size.saturating_sub(suffix),
            None => {
                return None;
            },
        }
    } else {
        match parse_u64(first) {
            Some(s) => s,
            None => {
                return None;
            },
        }
    };
    if file_size == 0 {
        return None;
    }
    let end: u64 = if at == 0 || at + 1 == m {
        file_size - 1
    } else {
        match parse_u64(second) {
            Some(e) => if e <= file_size - 1 {
                e
            } else {
                file_size - 1
            },
            None => {
                return None;
            },
        }
    };
    if start > end || start >= file_size {
        return None;
    }
    Some((start, end))
}

/// What a request for raw content is answered with: the status, the first
/// byte sent, how many bytes are sent, and the `Content-Range` value of a
/// partial answer.
pub struct ContentPlan {
    pub status: u16,
    pub start: u64,
    pub length: u64,
    pub content_range: Option<String>,
}

/// The `Content-Range` value of the range `start..=end` of a file of `size` bytes.
pub open spec fn content_range_text(start: u64, end: u64, size: u64) -> Seq<char> {
    seq!['b', 'y', 't', 'e', 's', ' '] + decimal_text(start as nat) + seq!['-']
        + decimal_text(end as nat) + seq!['/'] + decimal_text(size as nat)
}

fn append_u64(s: &mut String, n: u64)
    ensures
        final(s)@ == old(s)@ + decimal_text(n as nat),
{
    let t = u64_text(n);
    s.append(t.as_str());
}

/// Plans the answer to a request for raw content of a file of `file_size`
/// bytes: a honoured range gives a partial answer (206) with its
/// `Content-Range`; no range, or one that is not honoured, gives the whole file (200).
pub fn plan_content(range_header: Option<&str>, file_size: u64) -> (p: ContentPlan)
    ensures
        match range_header {
            Some(h) => parse_range_spec(h@, file_size),
            None => None,
        } matches Some((s, e)) ==> {
            &&& p.status == 206
            &&& p.start == s
            &&& p.length == e - s + 1
            &&& p.content_range matches Some(c) && c@ == content_range_text(s, e, file_size)
        },
        match range_header {
            Some(h) => parse_range_spec(h@, file_size),
            None => None,
        } is None ==> {
            &&& p.status == 200
            &&& p.start == 0
            &&& p.length == file_size
            &&& p.content_range is None
        },
{
    let range = match range_header {
        Some(h) => parse_range(h, file_size),
        None => None,
    };
    match range {
        Some((start, end)) => {
            let mut c = String::new();
            push_char(&mut c, 'b');
            push_char(&mut c, 'y');
            push_char(&mut c, 't');
            push_char(&mut c, 'e');
            push_char(&mut c, 's');
            push_char(&mut c, ' ');
            append_u64(&mut c, start);
            push_char(&mut c, '-');
            append_u64(&mut c, end);
            push_char(&mut c, '/');
            append_u64(&mut c, file_size);
            assert(c@ =~= content_range_text(start, end, file_size));
            ContentPlan { status: 206, start, length: end - start + 1, content_range: Some(c) }
        },
        None => ContentPlan { status: 200, start: 0, length: file_size, content_range: None },
    }
}

} // verus!
