//! File names and how they are shown: hidden names, names of uploaded files,
//! free names for a new file, breadcrumbs, encoded URLs and sizes.
use vstd::prelude::*;
use crate::keys::{child, child_path};
use crate::media::{lower_of, lowercase, same_text};
use crate::paths::{components, join_segments, path_components, seg_views};
use crate::text::{decimal_text, lemma_decimal_text_injective, lemma_decimal_text_len, push_char, push_two_digits, two_digits, u64_text};
use vstd::relations::injective_on;
use vstd::set_lib::{lemma_int_range, lemma_len_subset, lemma_map_size, set_int_range};

verus! {

/// Whether a name is hidden: it starts with a dot.
pub fn is_hidden(name: &str) -> (r: bool)
    ensures
        r == (name@.len() > 0 && name@[0] == '.'),
{
    name.unicode_len() > 0 && name.get_char(0) == '.'
}

/// The number of bytes of a character in UTF-8.
pub open spec fn utf8_width(c: char) -> nat {
    if (c as u32) < 0x80 {
        1
    } else if (c as u32) < 0x800 {
        2
    } else if (c as u32) < 0x10000 {
        3
    } else {
        4
    }
}

/// The number of bytes of a text in UTF-8.
pub open spec fn utf8_len(s: Seq<char>) -> nat
    decreases s.len(),
{
    if s.len() == 0 {
        0
    } else {
        utf8_len(s.drop_last()) + utf8_width(s.last())
    }
}

pub open spec fn is_separator(c: char) -> bool {
    c == '/' || c == '\\' || c == '\0'
}

/// A name without separators and NUL characters.
pub open spec fn without_separators(s: Seq<char>) -> Seq<char>
    decreases s.len(),
{
    if s.len() == 0 {
        s
    } else if is_separator(s.last()) {
        without_separators(s.drop_last())
    } else {
        without_separators(s.drop_last()).push(s.last())
    }
}

/// The position of the last dot of a text.
pub open spec fn last_dot(s: Seq<char>) -> Option<int>
    decreases s.len(),
{
    if s.len() == 0 {
        None
    } else if s.last() == '.' {
        Some(s.len() - 1)
    } else {
        last_dot(s.drop_last())
    }
}

/// The name an uploaded file is stored under: separators and NUL removed;
/// a name longer than 255 bytes is cut to its first 200 characters, and
/// keeps its extension (from the last dot) when that is at most 10 bytes.
pub open spec fn sanitized(name: Seq<char>) -> Seq<char> {
    let c = without_separators(name);
    if utf8_len(c) > 255 {
        let t = c.subrange(0, if c.len() >= 200 { 200 } else { c.len() as int });
        match last_dot(c) {
            Some(p) => if utf8_len(c.subrange(p, c.len() as int)) <= 10 {
                t + c.subrange(p, c.len() as int)
            } else {
                t
            },
            None => t,
        }
    } else {
        c
    }
}

fn char_width(c: char) -> (r: u64)
    ensures
        r == utf8_width(c),
{
    if (c as u32) < 0x80 {
        1
    } else if (c as u32) < 0x800 {
        2
    } else if (c as u32) < 0x10000 {
        3
    } else {
        4
    }
}

proof fn lemma_utf8_len_grows(s: Seq<char>, i: int)
    requires
        0 <= i <= s.len(),
    ensures
        utf8_len(s.subrange(0, i)) <= utf8_len(s),
    decreases s.len() - i,
{
    if i < s.len() {
        lemma_utf8_len_grows(s, i + 1);
        assert(s.subrange(0, i + 1).drop_last() =~= s.subrange(0, i));
    } else {
        assert(s.subrange(0, i) =~= s);
    }
}

/// The number of UTF-8 bytes of the characters of `s` from `from` on, or
/// `limit + 1` when there are more than `limit`.
fn utf8_len_from(s: &str, from: usize, limit: u64) -> (r: u64)
    requires
        from <= s@.len(),
        limit < 0x1_0000,
    ensures
        utf8_len(s@.subrange(from as int, s@.len() as int)) <= limit ==> r == utf8_len(
            s@.subrange(from as int, s@.len() as int),
        ),
        utf8_len(s@.subrange(from as int, s@.len() as int)) > limit ==> r == limit + 1,
{
    let n = s.unicode_len();
    let ghost t = s@.subrange(from as int, n as int);
    let mut total: u64 = 0;
    let mut i: usize = from;
    while i < n
        invariant
            n == s@.len(),
            t == s@.subrange(from as int, n as int),
            limit < 0x1_0000,
            from <= i <= n,
            total == utf8_len(s@.subrange(from as int, i as int)),
            total <= limit,
        decreases n - i,
    {
        let c = s.get_char(i);
        assert(s@.subrange(from as int, i + 1).drop_last() =~= s@.subrange(from as int, i as int));
        total = total + char_width(c);
        i = i + 1;
        if total > limit {
            proof {
                assert(s@.subrange(from as int, i as int) =~= t.subrange(0, i - from));
                lemma_utf8_len_grows(t, i - from);
            }
            return limit + 1;
        }
    }
    total
}

/// The name an uploaded file is stored under.
pub fn sanitize_filename(name: &str) -> (r: String)
    ensures
        r@ == sanitized(name@),
{
    let n = name.unicode_len();
    let mut cleaned = String::new();
    let mut i: usize = 0;
    while i < n
        invariant
            n == name@.len(),
            0 <= i <= n,
            cleaned@ == without_separators(name@.subrange(0, i as int)),
            cleaned@.len() <= i,
        decreases n - i,
    {
        let c = name.get_char(i);
        assert(name@.subrange(0, i + 1).drop_last() =~= name@.subrange(0, i as int));
        if !(c == '/' || c == '\\' || c == '\0') {
            push_char(&mut cleaned, c);
        }
        i = i + 1;
    }
    assert(name@.subrange(0, n as int) =~= name@);
    let c = cleaned.as_str();
    let m = c.unicode_len();
    let bytes = utf8_len_from(c, 0, 255);
    assert(c@.subrange(0, m as int) =~= c@);
    if bytes <= 255 {
        return cleaned;
    }
    let keep: usize = if m >= 200 {
        200
    } else {
        m
    };
    let mut r = c.substring_char(0, keep).to_owned();
    // the last dot, searched from the end
    let mut j: usize = m;
    while j > 0 && c.get_char(j - 1) != '.'
        invariant
            m == c@.len(),
            0 <= j <= m,
            last_dot(c@) == last_dot(c@.subrange(0, j as int)),
        decreases j,
    {
        assert(c@.subrange(0, j as int).drop_last() =~= c@.subrange(0, j - 1));
        j = j - 1;
    }
    if j > 0 {
        let p = j - 1;
        assert(last_dot(c@.subrange(0, j as int)) == Some(p as int));
        let ext_bytes = utf8_len_from(c, p, 10);
        if ext_bytes <= 10 {
            let ext = c.substring_char(p, m);
            r.append(ext);
        }
    } else {
        assert(c@.subrange(0, 0) =~= Seq::<char>::empty());
    }
    r
}

/// The stem and extension of a plain file name, as `Path::file_stem` and
/// `Path::extension` split it: at the last dot, unless that dot starts the
/// name; `.` and `..` have an empty stem and no extension.
pub open spec fn stem_and_extension(name: Seq<char>) -> (Seq<char>, Option<Seq<char>>) {
    if name == seq!['.'] || name == seq!['.', '.'] {
        (seq![], None)
    } else {
        match last_dot(name) {
            Some(k) => if k == 0 {
                (name, None)
            } else {
                (name.subrange(0, k), Some(name.subrange(k + 1, name.len() as int)))
            },
            None => (name, None),
        }
    }
}

/// The `n`-th name tried for a new file: the name itself, then
/// `<stem>(<n>).<extension>`.
pub open spec fn candidate_text(name: Seq<char>, n: nat) -> Seq<char> {
    if n == 0 {
        name
    } else {
        let (stem, ext) = stem_and_extension(name);
        stem + seq!['('] + decimal_text(n) + seq![')'] + match ext {
            Some(e) => seq!['.'] + e,
            None => seq![],
        }
    }
}

pub open spec fn name_taken(existing: Seq<String>, name: Seq<char>) -> bool {
    exists|i: int| 0 <= i < existing.len() && (#[trigger] existing[i])@ == name
}

fn split_name(name: &str) -> (r: (String, Option<String>))
    ensures
        r.0@ == stem_and_extension(name@).0,
        match r.1 {
            Some(e) => stem_and_extension(name@).1 == Some(e@),
            None => stem_and_extension(name@).1 is None,
        },
{
    let n = name.unicode_len();
    if (n == 1 && name.get_char(0) == '.') || (n == 2 && name.get_char(0) == '.' && name.get_char(1) == '.') {
        assert(n == 1 ==> name@ =~= seq!['.']);
        assert(n == 2 ==> name@ =~= seq!['.', '.']);
        return (String::new(), None);
    }
    assert(name@ != seq!['.'] && name@ != seq!['.', '.']);
    let mut j: usize = n;
    assert(name@.subrange(0, n as int) =~= name@);
    while j > 0 && name.get_char(j - 1) != '.'
        invariant
            n == name@.len(),
            0 <= j <= n,
            last_dot(name@) == last_dot(name@.subrange(0, j as int)),
        decreases j,
    {
        assert(name@.subrange(0, j as int).drop_last() =~= name@.subrange(0, j - 1));
        j = j - 1;
    }
    if j <= 1 {
        if j == 0 {
            assert(name@.subrange(0, 0) =~= Seq::<char>::empty());
        }
        return (name.to_owned(), None);
    }
    let k = j - 1;
    assert(last_dot(name@.subrange(0, j as int)) == Some(k as int));
    let stem = name.substring_char(0, k).to_owned();
    let ext = name.substring_char(k + 1, n).to_owned();
    (stem, Some(ext))
}

fn candidate(name: &str, n: u64) -> (r: String)
    ensures
        r@ == candidate_text(name@, n as nat),
{
    if n == 0 {
        return name.to_owned();
    }
    let (stem, ext) = split_name(name);
    let mut r = stem;
    push_char(&mut r, '(');
    let digits = u64_text(n);
    r.append(digits.as_str());
    push_char(&mut r, ')');
    match ext {
        Some(e) => {
            push_char(&mut r, '.');
            r.append(e.as_str());
        },
        None => {
            assert(r@ =~= r@ + Seq::<char>::empty());
        },
    }
    r
}

proof fn lemma_last_dot_in(s: Seq<char>)
    ensures
        last_dot(s) matches Some(k) ==> 0 <= k < s.len(),
    decreases s.len(),
{
    if s.len() > 0 && s.last() != '.' {
        lemma_last_dot_in(s.drop_last());
    }
}

/// The part of a candidate after its stem: the extension, with its dot.
pub open spec fn extension_part(name: Seq<char>) -> Seq<char> {
    match stem_and_extension(name).1 {
        Some(e) => seq!['.'] + e,
        None => seq![],
    }
}

proof fn lemma_candidate_longer(name: Seq<char>, n: nat)
    requires
        n >= 1,
    ensures
        candidate_text(name, n).len() > name.len(),
        candidate_text(name, n) == stem_and_extension(name).0 + seq!['('] + decimal_text(n) + seq![')']
            + extension_part(name),
{
    lemma_last_dot_in(name);
    lemma_decimal_text_len(n);
}

/// Different counters give different candidate names.
proof fn lemma_candidates_distinct(name: Seq<char>, n: nat, m: nat)
    requires
        candidate_text(name, n) == candidate_text(name, m),
    ensures
        n == m,
{
    if n == 0 && m >= 1 {
        lemma_candidate_longer(name, m);
    } else if m == 0 && n >= 1 {
        lemma_candidate_longer(name, n);
    } else if n >= 1 && m >= 1 {
        lemma_candidate_longer(name, n);
        lemma_candidate_longer(name, m);
        let stem = stem_and_extension(name).0;
        let a = candidate_text(name, n);
        let k = stem.len() + 1;
        let d = decimal_text(n).len();
        assert(decimal_text(m).len() == d);
        assert(a.subrange(k as int, (k + d) as int) =~= decimal_text(n));
        assert(candidate_text(name, m).subrange(k as int, (k + d) as int) =~= decimal_text(m));
        lemma_decimal_text_injective(n, m);
    }
}

/// Among as many candidate names as there are names taken, plus one, one
/// is free.
proof fn lemma_some_candidate_free(existing: Seq<String>, name: Seq<char>)
    ensures
        exists|m: nat| m <= existing.len() && !name_taken(existing, #[trigger] candidate_text(name, m)),
{
    if forall|m: nat| m <= existing.len() ==> name_taken(existing, #[trigger] candidate_text(name, m)) {
        let len = existing.len() as int;
        let f = |m: int|
            choose|i: int| 0 <= i < existing.len() && (#[trigger] existing[i])@ == candidate_text(name, m as nat);
        let x = set_int_range(0, len + 1);
        let y = x.map(f);
        lemma_int_range(0, len + 1);
        lemma_int_range(0, len);
        assert forall|m: int| x.contains(m) implies 0 <= #[trigger] f(m) < len && existing[f(m)]@ == candidate_text(name, m as nat) by {
            assert(name_taken(existing, candidate_text(name, m as nat)));
        }
        assert(injective_on(f, x)) by {
            assert forall|a: int, b: int| x.contains(a) && x.contains(b) && #[trigger] f(a) == #[trigger] f(b) implies a == b by {
                lemma_candidates_distinct(name, a as nat, b as nat);
            }
        }
        lemma_map_size(x, y, f);
        assert(y.subset_of(set_int_range(0, len)));
        lemma_len_subset(y, set_int_range(0, len));
    }
}

fn is_taken(existing: &Vec<String>, name: &str) -> (r: bool)
    ensures
        r == name_taken(existing@, name@),
{
    let mut i: usize = 0;
    while i < existing.len()
        invariant
            0 <= i <= existing@.len(),
            forall|j: int| 0 <= j < i ==> (#[trigger] existing@[j])@ != name@,
        decreases existing@.len() - i,
    {
        if same_text(existing[i].as_str(), name) {
            assert(existing@[i as int]@ == name@);
            return true;
        }
        i = i + 1;
    }
    false
}

/// The path in `dir` under which a new file called `desired` is stored,
/// given the names already in `dir`: the first free candidate name.
pub fn next_available_name(dir: &str, desired: &str, existing: &Vec<String>) -> (r: String)
    requires
        existing@.len() < u64::MAX,
    ensures
        exists|n: nat|
            n <= existing@.len() && r@ == child_path(dir@, candidate_text(desired@, n)) && !name_taken(
                existing@,
                candidate_text(desired@, n),
            ) && forall|m: nat| m < n ==> name_taken(existing@, #[trigger] candidate_text(desired@, m)),
{
    let limit = existing.len() as u64;
    let mut n: u64 = 0;
    while n <= limit
        invariant
            limit == existing@.len(),
            limit < u64::MAX,
            n <= limit + 1,
            forall|m: nat| m < n ==> name_taken(existing@, #[trigger] candidate_text(desired@, m)),
        decreases limit + 1 - n,
    {
        let c = candidate(desired, n);
        if !is_taken(existing, c.as_str()) {
            return child(dir, c.as_str());
        }
        n = n + 1;
    }
    proof {
        lemma_some_candidate_free(existing@, desired@);
    }
    assert(false);
    child(dir, desired)
}

/// One step of the path shown above a listing.
pub struct Breadcrumb {
    pub name: String,
    pub rel_url: String,
}

/// The breadcrumbs of a request path: `Home`, then one per component, each
/// linking to the path up to it.
pub fn breadcrumbs(rel_path: &str) -> (r: Vec<Breadcrumb>)
    ensures
        r@.len() == components(rel_path@).len() + 1,
        r@[0].name@ == "Home"@,
        r@[0].rel_url@ == Seq::<char>::empty(),
        forall|i: int|
            0 <= i < components(rel_path@).len() ==> {
                &&& (#[trigger] r@[i + 1]).name@ == components(rel_path@)[i]
                &&& r@[i + 1].rel_url@ == join_segments(components(rel_path@).subrange(0, i + 1))
            },
{
    let parts = path_components(rel_path);
    let mut crumbs: Vec<Breadcrumb> = Vec::new();
    crumbs.push(Breadcrumb { name: "Home".to_owned(), rel_url: String::new() });
    let mut acc = String::new();
    let mut i: usize = 0;
    while i < parts.len()
        invariant
            seg_views(parts@) == components(rel_path@),
            0 <= i <= parts@.len(),
            crumbs@.len() == i + 1,
            crumbs@[0].name@ == "Home"@,
            crumbs@[0].rel_url@ == Seq::<char>::empty(),
            acc@ == join_segments(seg_views(parts@).subrange(0, i as int)),
            forall|j: int|
                0 <= j < i ==> {
                    &&& (#[trigger] crumbs@[j + 1]).name@ == seg_views(parts@)[j]
                    &&& crumbs@[j + 1].rel_url@ == join_segments(seg_views(parts@).subrange(0, j + 1))
                },
        decreases parts@.len() - i,
    {
        let ghost before = seg_views(parts@).subrange(0, i as int);
        let ghost after = seg_views(parts@).subrange(0, i + 1);
        assert(after.drop_last() =~= before);
        if i > 0 {
            push_char(&mut acc, '/');
        }
        acc.append(parts[i].as_str());
        assert(acc@ =~= join_segments(after));
        crumbs.push(Breadcrumb { name: parts[i].clone(), rel_url: acc.clone() });
        i = i + 1;
    }
    crumbs
}

/// The UTF-8 bytes of a character.
pub open spec fn utf8_bytes(c: char) -> Seq<u8> {
    let v = c as int;
    if v < 0x80 {
        seq![v as u8]
    } else if v < 0x800 {
        seq![(0xC0 + v / 64) as u8, (0x80 + v % 64) as u8]
    } else if v < 0x10000 {
        seq![(0xE0 + v / 4096) as u8, (0x80 + (v / 64) % 64) as u8, (0x80 + v % 64) as u8]
    } else {
        seq![
            (0xF0 + v / 262144) as u8,
            (0x80 + (v / 4096) % 64) as u8,
            (0x80 + (v / 64) % 64) as u8,
            (0x80 + v % 64) as u8,
        ]
    }
}

pub open spec fn is_alphanumeric_byte(b: u8) -> bool {
    (0x30 <= b && b <= 0x39) || (0x41 <= b && b <= 0x5A) || (0x61 <= b && b <= 0x7A)
}

/// An upper-case hexadecimal digit.
pub open spec fn hex_digit(d: u8) -> char {
    if d < 10 {
        ((d + 48) as u8) as char
    } else {
        ((d + 55) as u8) as char
    }
}

/// A byte as a URL carries it: an ASCII letter or digit as itself, any
/// other byte as `%` and two upper-case hexadecimal digits.
pub open spec fn byte_escaped(b: u8) -> Seq<char> {
    if is_alphanumeric_byte(b) {
        seq![b as char]
    } else {
        seq!['%', hex_digit(b / 16), hex_digit(b % 16)]
    }
}

pub open spec fn bytes_escaped(bs: Seq<u8>) -> Seq<char>
    decreases bs.len(),
{
    if bs.len() == 0 {
        seq![]
    } else {
        bytes_escaped(bs.drop_last()) + byte_escaped(bs.last())
    }
}

/// A text percent-encoded: each of its UTF-8 bytes escaped.
pub open spec fn percent_text(s: Seq<char>) -> Seq<char>
    decreases s.len(),
{
    if s.len() == 0 {
        seq![]
    } else {
        percent_text(s.drop_last()) + bytes_escaped(utf8_bytes(s.last()))
    }
}

/// Relies on `percent_encoding::utf8_percent_encode` with `NON_ALPHANUMERIC`:
/// each UTF-8 byte other than an ASCII letter or digit becomes `%XX`, in
/// upper-case hexadecimal.
#[verifier::external_body]
fn percent_encode_text(s: &str) -> (r: String)
    ensures
        r@ == percent_text(s@),
{
    percent_encoding::utf8_percent_encode(s, percent_encoding::NON_ALPHANUMERIC).to_string()
}

/// The runs of a text between `/` separators, empty ones included.
pub open spec fn slash_runs(s: Seq<char>) -> Seq<Seq<char>>
    decreases s.len(),
{
    if s.len() == 0 {
        seq![seq![]]
    } else {
        let q = slash_runs(s.drop_last());
        if s.last() == '/' {
            q.push(seq![])
        } else {
            q.update(q.len() - 1, q.last().push(s.last()))
        }
    }
}

proof fn lemma_slash_runs_nonempty(s: Seq<char>)
    ensures
        slash_runs(s).len() > 0,
    decreases s.len(),
{
    if s.len() > 0 {
        lemma_slash_runs_nonempty(s.drop_last());
    }
}

/// A path for a URL: each run between separators percent-encoded.
pub open spec fn url_path_text(s: Seq<char>) -> Seq<char> {
    join_segments(slash_runs(s).map_values(|w: Seq<char>| percent_text(w)))
}

/// Encodes a path for a URL, keeping its separators.
pub fn url_encode_path(path: &str) -> (r: String)
    ensures
        r@ == url_path_text(path@),
{
    let n = path.unicode_len();
    let mut done: Vec<String> = Vec::new();
    let mut cur = String::new();
    let mut i: usize = 0;
    assert(slash_runs(path@.subrange(0, 0)) =~= seq![seq![]]);
    while i < n
        invariant
            n == path@.len(),
            0 <= i <= n,
            seg_views(done@).push(cur@) == slash_runs(path@.subrange(0, i as int)),
        decreases n - i,
    {
        let c = path.get_char(i);
        assert(path@.subrange(0, i + 1).drop_last() =~= path@.subrange(0, i as int));
        proof {
            lemma_slash_runs_nonempty(path@.subrange(0, i as int));
        }
        if c == '/' {
            let ghost before = done@;
            let ghost before_cur = cur@;
            done.push(cur);
            cur = String::new();
            assert(seg_views(done@) =~= seg_views(before).push(before_cur));
            assert(seg_views(done@) =~= slash_runs(path@.subrange(0, i as int)));
            assert(seg_views(done@).push(cur@) =~= slash_runs(path@.subrange(0, i + 1)));
        } else {
            let ghost before = cur@;
            push_char(&mut cur, c);
            assert(seg_views(done@).push(cur@) =~= seg_views(done@).push(before).update(
                done@.len() as int,
                before.push(c),
            ));
        }
        i = i + 1;
    }
    assert(path@.subrange(0, n as int) =~= path@);
    done.push(cur);
    let ghost runs = seg_views(done@);
    assert(runs == slash_runs(path@));
    let mut r = String::new();
    let mut j: usize = 0;
    while j < done.len()
        invariant
            runs == seg_views(done@),
            0 <= j <= done@.len(),
            r@ == join_segments(runs.map_values(|w: Seq<char>| percent_text(w)).subrange(0, j as int)),
        decreases done@.len() - j,
    {
        let ghost enc = runs.map_values(|w: Seq<char>| percent_text(w));
        assert(enc.subrange(0, j + 1).drop_last() =~= enc.subrange(0, j as int));
        if j > 0 {
            push_char(&mut r, '/');
        }
        let e = percent_encode_text(done[j].as_str());
        r.append(e.as_str());
        assert(r@ =~= join_segments(enc.subrange(0, j + 1)));
        j = j + 1;
    }
    assert(runs.map_values(|w: Seq<char>| percent_text(w)).subrange(0, j as int) =~= runs.map_values(
        |w: Seq<char>| percent_text(w),
    ));
    r
}

/// The name a download is saved under: the last component of its path, or
/// `download` when it has none.
pub open spec fn download_name(path: Seq<char>) -> Seq<char> {
    let c = components(path);
    if c.len() > 0 {
        c.last()
    } else {
        "download"@
    }
}

/// The `Content-Disposition` value that makes a client save the file at
/// `full_path` under its own name.
pub fn content_disposition(full_path: &str) -> (r: String)
    ensures
        r@ == "attachment; filename*=UTF-8''"@ + percent_text(download_name(full_path@)),
{
    let parts = path_components(full_path);
    let encoded = if parts.len() > 0 {
        percent_encode_text(parts[parts.len() - 1].as_str())
    } else {
        percent_encode_text("download")
    };
    let mut r = "attachment; filename*=UTF-8''".to_owned();
    r.append(encoded.as_str());
    r
}

/// The power of 1024 that sizes are shown in: 0 for bytes up to 4 for
/// terabytes.
pub open spec fn size_unit(size: u64) -> nat {
    if size < 0x400 {
        0
    } else if size < 0x10_0000 {
        1
    } else if size < 0x4000_0000 {
        2
    } else if size < 0x100_0000_0000 {
        3
    } else {
        4
    }
}

pub open spec fn unit_divisor(k: nat) -> nat {
    if k == 0 {
        1
    } else if k == 1 {
        0x400
    } else if k == 2 {
        0x10_0000
    } else if k == 3 {
        0x4000_0000
    } else {
        0x100_0000_0000
    }
}

pub open spec fn unit_name(k: nat) -> Seq<char> {
    if k == 0 {
        "B"@
    } else if k == 1 {
        "KB"@
    } else if k == 2 {
        "MB"@
    } else if k == 3 {
        "GB"@
    } else {
        "TB"@
    }
}

/// `size / d` in hundredths, rounded to the nearest, ties to even.
pub open spec fn rounded_hundredths(size: u64, d: nat) -> nat {
    let q = (size * 100) / (d as int);
    let r = (size * 100) % (d as int);
    if 2 * r > d || (2 * r == d && q % 2 == 1) {
        (q + 1) as nat
    } else {
        q as nat
    }
}

/// A size as shown: whole bytes below a kilobyte, otherwise the size in the
/// largest unit up to terabytes that it reaches, with two decimals.
pub open spec fn size_text(size: u64) -> Seq<char> {
    let k = size_unit(size);
    if k == 0 {
        decimal_text(size as nat) + " B"@
    } else {
        let h = rounded_hundredths(size, unit_divisor(k));
        decimal_text(h / 100) + seq!['.'] + two_digits(h % 100) + seq![' '] + unit_name(k)
    }
}

/// Formats a size for display.
pub fn format_size(size: u64) -> (r: String)
    ensures
        r@ == size_text(size),
{
    let (k, d, unit): (u64, u128, &str) = if size < 0x400 {
        (0, 1, "B")
    } else if size < 0x10_0000 {
        (1, 0x400, "KB")
    } else if size < 0x4000_0000 {
        (2, 0x10_0000, "MB")
    } else if size < 0x100_0000_0000 {
        (3, 0x4000_0000, "GB")
    } else {
        (4, 0x100_0000_0000, "TB")
    };
    assert(k == size_unit(size) && d == unit_divisor(k as nat) && unit@ == unit_name(k as nat));
    if k == 0 {
        let mut r = u64_text(size);
        r.append(" B");
        return r;
    }
    let scaled: u128 = (size as u128) * 100;
    let q = scaled / d;
    let rem = scaled % d;
    let h: u128 = if 2 * rem > d || (2 * rem == d && q % 2 == 1) {
        q + 1
    } else {
        q
    };
    assert(h == rounded_hundredths(size, d as nat));
    assert(h <= u64::MAX) by {
        vstd::arithmetic::div_mod::lemma_div_is_ordered_by_denominator(scaled as int, 0x400, d as int);
        vstd::arithmetic::div_mod::lemma_div_is_ordered(scaled as int, 0xffff_ffff_ffff_ffffint * 100, 0x400);
        assert((0xffff_ffff_ffff_ffffint * 100) / 0x400 < 0xffff_ffff_ffff_fffe);
    }
    let h64 = h as u64;
    let mut r = u64_text(h64 / 100);
    push_char(&mut r, '.');
    push_two_digits(&mut r, h64 % 100);
    push_char(&mut r, ' ');
    r.append(unit);
    r
}

/// Texts in lexicographic order of their characters (the order of their
/// UTF-8 bytes).
pub open spec fn text_le(a: Seq<char>, b: Seq<char>) -> bool
    decreases a.len(),
{
    if a.len() == 0 {
        true
    } else if b.len() == 0 {
        false
    } else if a[0] != b[0] {
        a[0] < b[0]
    } else {
        text_le(a.drop_first(), b.drop_first())
    }
}

proof fn lemma_text_le_total(a: Seq<char>, b: Seq<char>)
    ensures
        text_le(a, b) || text_le(b, a),
    decreases a.len(),
{
    if a.len() > 0 && b.len() > 0 && a[0] == b[0] {
        lemma_text_le_total(a.drop_first(), b.drop_first());
    }
}

proof fn lemma_text_le_trans(a: Seq<char>, b: Seq<char>, c: Seq<char>)
    requires
        text_le(a, b),
        text_le(b, c),
    ensures
        text_le(a, c),
    decreases a.len(),
{
    if a.len() > 0 && b.len() > 0 && c.len() > 0 && a[0] == b[0] && b[0] == c[0] {
        lemma_text_le_trans(a.drop_first(), b.drop_first(), c.drop_first());
    }
}

/// The order of a listing: directories first, then names ignoring case.
pub open spec fn listed_before_or_with(a: (bool, Seq<char>), b: (bool, Seq<char>)) -> bool {
    (a.0 && !b.0) || (a.0 == b.0 && text_le(lower_of(a.1), lower_of(b.1)))
}

pub open spec fn listing_keys(v: Seq<(bool, String)>) -> Seq<(bool, Seq<char>)> {
    v.map_values(|e: (bool, String)| (e.0, e.1@))
}

fn text_le_exec(a: &str, b: &str) -> (r: bool)
    ensures
        r == text_le(a@, b@),
{
    let n = a.unicode_len();
    let m = b.unicode_len();
    let mut i: usize = 0;
    assert(a@.subrange(0, n as int) =~= a@);
    assert(b@.subrange(0, m as int) =~= b@);
    while i < n && i < m && a.get_char(i) == b.get_char(i)
        invariant
            n == a@.len(),
            m == b@.len(),
            0 <= i <= n,
            i <= m,
            text_le(a@, b@) == text_le(a@.subrange(i as int, n as int), b@.subrange(i as int, m as int)),
        decreases n - i,
    {
        assert(a@.subrange(i as int, n as int).drop_first() =~= a@.subrange(i + 1, n as int));
        assert(b@.subrange(i as int, m as int).drop_first() =~= b@.subrange(i + 1, m as int));
        i = i + 1;
    }
    if i == n {
        return true;
    }
    if i == m {
        return false;
    }
    let x = a.get_char(i);
    let y = b.get_char(i);
    assert(a@.subrange(i as int, n as int)[0] == x);
    assert(b@.subrange(i as int, m as int)[0] == y);
    x < y
}

/// The order in which a directory's entries are listed, each given by
/// whether it is a directory and its name: a permutation of their
/// positions, directories first, then names in order ignoring case.
pub fn listing_order(entries: &Vec<(bool, String)>) -> (r: Vec<usize>)
    ensures
        r@.len() == entries@.len(),
        forall|a: int| 0 <= a < r@.len() ==> (#[trigger] r@[a]) < entries@.len(),
        forall|a: int, b: int| 0 <= a < b < r@.len() ==> r@[a] != r@[b],
        forall|a: int, b: int|
            0 <= a < b < r@.len() ==> listed_before_or_with(
                listing_keys(entries@)[r@[a] as int],
                listing_keys(entries@)[r@[b] as int],
            ),
{
    let ghost keys = listing_keys(entries@);
    let mut lowered: Vec<String> = Vec::new();
    let mut k: usize = 0;
    while k < entries.len()
        invariant
            0 <= k <= entries@.len(),
            lowered@.len() == k,
            forall|j: int| 0 <= j < k ==> (#[trigger] lowered@[j])@ == lower_of(entries@[j].1@),
        decreases entries@.len() - k,
    {
        lowered.push(lowercase(entries[k].1.as_str()));
        k = k + 1;
    }
    let mut r: Vec<usize> = Vec::new();
    let mut i: usize = 0;
    while i < entries.len()
        invariant
            keys == listing_keys(entries@),
            lowered@.len() == entries@.len(),
            forall|j: int| 0 <= j < entries@.len() ==> (#[trigger] lowered@[j])@ == lower_of(entries@[j].1@),
            0 <= i <= entries@.len(),
            r@.len() == i,
            forall|a: int| 0 <= a < r@.len() ==> (#[trigger] r@[a]) < i,
            forall|a: int, b: int| 0 <= a < b < r@.len() ==> r@[a] != r@[b],
            forall|a: int, b: int|
                0 <= a < b < r@.len() ==> listed_before_or_with(keys[r@[a] as int], keys[r@[b] as int]),
        decreases entries@.len() - i,
    {
        // the new entry goes after every one listed before or with it
        let mut p: usize = 0;
        while p < r.len() && entry_not_after(entries, &lowered, r[p], i)
            invariant
                keys == listing_keys(entries@),
                lowered@.len() == entries@.len(),
                forall|j: int| 0 <= j < entries@.len() ==> (#[trigger] lowered@[j])@ == lower_of(entries@[j].1@),
                i < entries@.len(),
                r@.len() == i,
                forall|a: int| 0 <= a < r@.len() ==> (#[trigger] r@[a]) < i,
                0 <= p <= r@.len(),
                forall|a: int| 0 <= a < p ==> listed_before_or_with(keys[(#[trigger] r@[a]) as int], keys[i as int]),
            decreases r@.len() - p,
        {
            p = p + 1;
        }
        let ghost old_r = r@;
        proof {
            if p < old_r.len() {
                let q = old_r[p as int] as int;
                let x = keys[q];
                let y = keys[i as int];
                assert(!listed_before_or_with(x, y));
                lemma_text_le_total(lower_of(x.1), lower_of(y.1));
                assert forall|b: int| p <= b < old_r.len() implies listed_before_or_with(
                    y,
                    keys[(#[trigger] old_r[b]) as int],
                ) by {
                    if b > p {
                        let z = keys[old_r[b] as int];
                        assert(listed_before_or_with(x, z));
                        if y.0 == z.0 && x.0 == y.0 {
                            lemma_text_le_trans(lower_of(y.1), lower_of(x.1), lower_of(z.1));
                        }
                    }
                }
            }
        }
        r.insert(p, i);
        assert forall|a: int, b: int| 0 <= a < b < r@.len() implies listed_before_or_with(
            keys[r@[a] as int],
            keys[r@[b] as int],
        ) by {
            if a < p && b == p {
            } else if a < p && b > p {
                assert(r@[b] == old_r[b - 1]);
                let x = keys[old_r[a] as int];
                let y = keys[i as int];
                let z = keys[old_r[b - 1] as int];
                assert(listed_before_or_with(y, z));
                if x.0 == y.0 && y.0 == z.0 {
                    lemma_text_le_trans(lower_of(x.1), lower_of(y.1), lower_of(z.1));
                }
            } else if a == p {
                assert(r@[b] == old_r[b - 1]);
            } else if a > p {
                assert(r@[a] == old_r[a - 1] && r@[b] == old_r[b - 1]);
            } else {
                assert(r@[a] == old_r[a] && r@[b] == old_r[b]);
            }
        }
        assert forall|a: int, b: int| 0 <= a < b < r@.len() implies r@[a] != r@[b] by {
            if a < p {
                assert(r@[a] == old_r[a]);
            } else if a > p {
                assert(r@[a] == old_r[a - 1]);
            }
            if b < p {
                assert(r@[b] == old_r[b]);
            } else if b > p {
                assert(r@[b] == old_r[b - 1]);
            }
        }
        assert forall|a: int| 0 <= a < r@.len() implies (#[trigger] r@[a]) < i + 1 by {
            if a < p {
                assert(r@[a] == old_r[a]);
            } else if a > p {
                assert(r@[a] == old_r[a - 1]);
            }
        }
        i = i + 1;
    }
    r
}

/// Whether entry `q` is listed before or with entry `i`, given the names in
/// lower case.
fn entry_not_after(entries: &Vec<(bool, String)>, lowered: &Vec<String>, q: usize, i: usize) -> (r: bool)
    requires
        q < entries@.len(),
        i < entries@.len(),
        lowered@.len() == entries@.len(),
        forall|j: int| 0 <= j < entries@.len() ==> (#[trigger] lowered@[j])@ == lower_of(entries@[j].1@),
    ensures
        r == listed_before_or_with(listing_keys(entries@)[q as int], listing_keys(entries@)[i as int]),
{
    let a = entries[q].0;
    let b = entries[i].0;
    assert(lowered@[q as int]@ == lower_of(entries@[q as int].1@));
    assert(lowered@[i as int]@ == lower_of(entries@[i as int].1@));
    (a && !b) || (a == b && text_le_exec(lowered[q].as_str(), lowered[i].as_str()))
}

} // verus!
