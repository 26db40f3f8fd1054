//! Sandboxed paths. A path is text; its components are the non-empty runs
//! between `/` separators, and a path is rooted when it starts with `/`.
//! Canonicalization itself reads the disk and is done by the caller: the
//! functions here join a request path onto the sandbox root, and check and
//! relativize what canonicalization gave back.
use vstd::prelude::*;
use crate::error::AppError;
use crate::text::push_char;

verus! {

pub open spec fn rooted(s: Seq<char>) -> bool {
    s.len() > 0 && s[0] == '/'
}

/// The components of a path, in order.
pub open spec fn components(s: Seq<char>) -> Seq<Seq<char>>
    decreases s.len(),
{
    if s.len() == 0 {
        seq![]
    } else {
        let p = s.drop_last();
        let c = s.last();
        if c == '/' {
            components(p)
        } else if p.len() == 0 || p.last() == '/' {
            components(p).push(seq![c])
        } else {
            let q = components(p);
            q.update(q.len() - 1, q.last().push(c))
        }
    }
}

/// Components joined by single separators.
pub open spec fn join_segments(segs: Seq<Seq<char>>) -> Seq<char>
    decreases segs.len(),
{
    if segs.len() == 0 {
        seq![]
    } else if segs.len() == 1 {
        segs[0]
    } else {
        join_segments(segs.drop_last()) + seq!['/'] + segs.last()
    }
}

pub open spec fn seg_views(v: Seq<String>) -> Seq<Seq<char>> {
    v.map_values(|x: String| x@)
}

/// `p` lies in `base` or is `base` itself: both are rooted alike and the
/// components of `base` begin those of `p`.
pub open spec fn within(base: Seq<char>, p: Seq<char>) -> bool {
    let b = components(base);
    let c = components(p);
    &&& rooted(base) == rooted(p)
    &&& b.len() <= c.len()
    &&& c.subrange(0, b.len() as int) == b
}

/// The path of `p` relative to `base`: the components past those of `base`.
pub open spec fn relative_text(base: Seq<char>, p: Seq<char>) -> Seq<char> {
    let c = components(p);
    join_segments(c.subrange(components(base).len() as int, c.len() as int))
}

pub open spec fn trim_leading(s: Seq<char>) -> Seq<char>
    decreases s.len(),
{
    if s.len() > 0 && s[0] == '/' {
        trim_leading(s.drop_first())
    } else {
        s
    }
}

pub open spec fn trim_trailing(s: Seq<char>) -> Seq<char>
    decreases s.len(),
{
    if s.len() > 0 && s.last() == '/' {
        trim_trailing(s.drop_last())
    } else {
        s
    }
}

/// A request path without its leading and trailing separators.
pub open spec fn trim_slashes(s: Seq<char>) -> Seq<char> {
    trim_trailing(trim_leading(s))
}

/// The request path `rel` joined onto `base`; an empty one denotes `base` itself.
pub open spec fn joined(base: Seq<char>, rel: Seq<char>) -> Seq<char> {
    let t = trim_slashes(rel);
    if t.len() == 0 {
        base
    } else if base.len() > 0 && base.last() == '/' {
        base + t
    } else {
        base + seq!['/'] + t
    }
}

proof fn lemma_components_open(s: Seq<char>)
    requires
        s.len() > 0,
        s.last() != '/',
    ensures
        components(s).len() > 0,
    decreases s.len(),
{
    let p = s.drop_last();
    if !(p.len() == 0 || p.last() == '/') {
        lemma_components_open(p);
    }
}

/// Splits a path into its components.
pub fn path_components(s: &str) -> (r: Vec<String>)
    ensures
        seg_views(r@) == components(s@),
{
    let n = s.unicode_len();
    let mut done: Vec<String> = Vec::new();
    let mut cur = String::new();
    let mut i: usize = 0;
    while i < n
        invariant
            n == s@.len(),
            0 <= i <= n,
            cur@.len() > 0 <==> (i > 0 && s@[i - 1] != '/'),
            cur@.len() == 0 ==> seg_views(done@) == components(s@.subrange(0, i as int)),
            cur@.len() > 0 ==> seg_views(done@).push(cur@) == components(
                s@.subrange(0, i as int),
            ),
        decreases n - i,
    {
        let c = s.get_char(i);
        let ghost pre = s@.subrange(0, i as int);
        let ghost now = s@.subrange(0, i + 1);
        assert(now.drop_last() =~= pre);
        assert(now.last() == c);
        if c == '/' {
            if cur.unicode_len() > 0 {
                let ghost before = done@;
                done.push(cur);
                assert(seg_views(done@) =~= seg_views(before).push(cur@));
                cur = String::new();
            }
        } else {
            push_char(&mut cur, c);
        }
        i = i + 1;
        proof {
            if c != '/' && cur@.len() == 1 {
                assert(cur@ =~= seq![c]);
            }
            if c != '/' && cur@.len() > 1 {
                assert(pre.len() > 0 && pre.last() != '/');
                lemma_components_open(pre);
                assert(seg_views(done@).push(cur@) =~= components(pre).update(
                    components(pre).len() - 1,
                    components(pre).last().push(c),
                ));
            }
        }
    }
    if cur.unicode_len() > 0 {
        let ghost before = done@;
        done.push(cur);
        assert(seg_views(done@) =~= seg_views(before).push(cur@));
    }
    assert(s@.subrange(0, n as int) =~= s@);
    done
}

/// Joins components with single separators.
pub fn join_components(parts: &Vec<String>, from: usize) -> (r: String)
    requires
        from <= parts@.len(),
    ensures
        r@ == join_segments(seg_views(parts@).subrange(from as int, parts@.len() as int)),
{
    let mut r = String::new();
    let mut i: usize = from;
    while i < parts.len()
        invariant
            from <= i <= parts@.len(),
            r@ == join_segments(seg_views(parts@).subrange(from as int, i as int)),
        decreases parts@.len() - i,
    {
        let ghost before = seg_views(parts@).subrange(from as int, i as int);
        let ghost after = seg_views(parts@).subrange(from as int, i + 1);
        assert(after.drop_last() =~= before);
        if i > from {
            push_char(&mut r, '/');
        }
        r.append(parts[i].as_str());
        assert(r@ =~= join_segments(after));
        i = i + 1;
    }
    r
}

fn starts_with_slash(s: &str) -> (r: bool)
    ensures
        r == rooted(s@),
{
    s.unicode_len() > 0 && s.get_char(0) == '/'
}

/// Whether `p` lies in `base` or is `base` itself, component by component.
pub fn is_within(base: &str, p: &str) -> (r: bool)
    ensures
        r == within(base@, p@),
{
    let b = path_components(base);
    let c = path_components(p);
    if starts_with_slash(base) != starts_with_slash(p) || b.len() > c.len() {
        return false;
    }
    let mut i: usize = 0;
    while i < b.len()
        invariant
            seg_views(b@) == components(base@),
            seg_views(c@) == components(p@),
            b@.len() <= c@.len(),
            0 <= i <= b@.len(),
            forall|j: int| 0 <= j < i ==> b@[j]@ == c@[j]@,
        decreases b@.len() - i,
    {
        if b[i] != c[i] {
            assert(components(p@).subrange(0, b@.len() as int)[i as int] != components(
                base@,
            )[i as int]);
            return false;
        }
        i = i + 1;
    }
    assert(components(p@).subrange(0, b@.len() as int) =~= components(base@));
    true
}

/// Strips the separators at both ends of a request path.
pub fn trim_slashes_of(s: &str) -> (r: String)
    ensures
        r@ == trim_slashes(s@),
{
    let n = s.unicode_len();
    let mut a: usize = 0;
    assert(s@.subrange(0, n as int) =~= s@);
    while a < n && s.get_char(a) == '/'
        invariant
            n == s@.len(),
            0 <= a <= n,
            trim_leading(s@) == trim_leading(s@.subrange(a as int, n as int)),
        decreases n - a,
    {
        assert(s@.subrange(a as int, n as int).drop_first() =~= s@.subrange(a + 1, n as int));
        a = a + 1;
    }
    let ghost t = s@.subrange(a as int, n as int);
    assert(trim_leading(t) == t);
    let mut b: usize = n;
    while b > a && s.get_char(b - 1) == '/'
        invariant
            n == s@.len(),
            0 <= a <= b <= n,
            t == s@.subrange(a as int, n as int),
            trim_trailing(t) == trim_trailing(s@.subrange(a as int, b as int)),
        decreases b,
    {
        assert(s@.subrange(a as int, b as int).drop_last() =~= s@.subrange(a as int, b - 1));
        b = b - 1;
    }
    let r = s.substring_char(a, b);
    r.to_owned()
}

/// Joins a request path onto the sandbox root, after trimming its separators.
pub fn join_in_base(base: &str, rel_path: &str) -> (r: String)
    ensures
        r@ == joined(base@, rel_path@),
{
    let t = trim_slashes_of(rel_path);
    let mut r = base.to_owned();
    if t.unicode_len() == 0 {
        return r;
    }
    let n = base.unicode_len();
    if !(n > 0 && base.get_char(n - 1) == '/') {
        push_char(&mut r, '/');
    }
    r.append(t.as_str());
    r
}

pub open spec fn text_of(o: Option<&str>) -> Option<Seq<char>> {
    match o {
        Some(c) => Some(c@),
        None => None,
    }
}

/// Checks what canonicalizing a joined request path gave: `None` when the
/// path does not exist, otherwise the canonical path, which must lie in the
/// sandbox root.
pub open spec fn resolves_to(
    base: Seq<char>,
    canonical: Option<Seq<char>>,
    r: Result<String, AppError>,
) -> bool {
    match canonical {
        None => r matches Err(AppError::NotFound(_)),
        Some(c) => if within(base, c) {
            r matches Ok(p) && p@ == c
        } else {
            r matches Err(AppError::Forbidden(_))
        },
    }
}

/// Resolves a request path from the outcome of canonicalizing it: a missing
/// path is not found, and a canonical path outside the sandbox root
/// (through `..` or a link) is refused.
pub fn canonicalize_in_base(base: &str, canonical: Option<&str>) -> (r: Result<String, AppError>)
    ensures
        resolves_to(base@, text_of(canonical), r),
        r matches Ok(p) ==> within(base@, p@),
{
    match canonical {
        None => Err(AppError::NotFound("Failed to resolve path".to_owned())),
        Some(c) => if is_within(base, c) {
            Ok(c.to_owned())
        } else {
            Err(AppError::Forbidden("Path traversal attempt detected".to_owned()))
        },
    }
}

/// What relativizing `abs` against `base` gives.
pub open spec fn relativizes(base: Seq<char>, abs: Seq<char>, r: Result<String, AppError>) -> bool {
    if within(base, abs) {
        r matches Ok(s) && s@ == relative_text(base, abs)
    } else {
        r matches Err(AppError::Internal(_))
    }
}

/// Converts a path back to one relative to the sandbox root; fails when it
/// does not lie in the root.
pub fn relative_from_base(base: &str, abs_path: &str) -> (r: Result<String, AppError>)
    ensures
        relativizes(base@, abs_path@, r),
{
    if !is_within(base, abs_path) {
        return Err(AppError::Internal("Path is not under base".to_owned()));
    }
    let b = path_components(base);
    let c = path_components(abs_path);
    let r = join_components(&c, b.len());
    assert(seg_views(c@).subrange(b@.len() as int, c@.len() as int) =~= components(
        abs_path@,
    ).subrange(components(base@).len() as int, components(abs_path@).len() as int));
    Ok(r)
}

/// The directory that holds `p`; none for a path without components.
pub open spec fn parent_text(p: Seq<char>) -> Option<Seq<char>> {
    let c = components(p);
    if c.len() == 0 {
        None
    } else if rooted(p) {
        Some(seq!['/'] + join_segments(c.drop_last()))
    } else {
        Some(join_segments(c.drop_last()))
    }
}

/// The directory that holds `p`.
pub fn parent_dir(p: &str) -> (r: Option<String>)
    ensures
        r matches Some(d) ==> parent_text(p@) == Some(d@),
        r is None ==> parent_text(p@) is None,
{
    let mut c = path_components(p);
    if c.len() == 0 {
        return None;
    }
    c.pop();
    assert(seg_views(c@) =~= components(p@).drop_last());
    let joined = join_components(&c, 0);
    assert(seg_views(c@).subrange(0, c@.len() as int) =~= seg_views(c@));
    if starts_with_slash(p) {
        let mut r = String::new();
        push_char(&mut r, '/');
        r.append(joined.as_str());
        Some(r)
    } else {
        Some(joined)
    }
}

/// Components with `.` and `..` resolved without following links: `.` is
/// dropped, and `..` drops the component before it (none above the root).
pub open spec fn resolve_segments(stack: Seq<Seq<char>>, rest: Seq<Seq<char>>) -> Seq<Seq<char>>
    decreases rest.len(),
{
    if rest.len() == 0 {
        stack
    } else {
        let c = rest[0];
        let next = if c == seq!['.'] {
            stack
        } else if c == seq!['.', '.'] {
            if stack.len() > 0 {
                stack.drop_last()
            } else {
                stack
            }
        } else {
            stack.push(c)
        };
        resolve_segments(next, rest.drop_first())
    }
}

/// The canonical form of a rooted path in a tree without links.
pub open spec fn lexical_canonical(p: Seq<char>) -> Seq<char> {
    seq!['/'] + join_segments(resolve_segments(seq![], components(p)))
}

/// A component: non-empty, without a separator.
pub open spec fn clean_segment(w: Seq<char>) -> bool {
    w.len() > 0 && forall|i: int| 0 <= i < w.len() ==> w[i] != '/'
}

pub open spec fn clean_segments(segs: Seq<Seq<char>>) -> bool {
    forall|i: int| 0 <= i < segs.len() ==> clean_segment(#[trigger] segs[i])
}

proof fn lemma_components_clean(s: Seq<char>)
    ensures
        clean_segments(components(s)),
        s.len() > 0 && s.last() != '/' ==> components(s).len() > 0 && components(s).last().last()
            == s.last(),
    decreases s.len(),
{
    if s.len() > 0 {
        let p = s.drop_last();
        lemma_components_clean(p);
        let c = s.last();
        if c != '/' && !(p.len() == 0 || p.last() == '/') {
            let q = components(p);
            let w = q.last().push(c);
            assert forall|i: int| 0 <= i < w.len() implies w[i] != '/' by {
                if i < w.len() - 1 {
                    assert(clean_segment(q[q.len() - 1]));
                }
            }
            assert(clean_segment(w));
        }
        if c != '/' && (p.len() == 0 || p.last() == '/') {
            assert(clean_segment(seq![c]));
        }
    }
}

proof fn lemma_components_append_segment(y: Seq<char>, w: Seq<char>)
    requires
        y.len() == 0 || y.last() == '/',
        clean_segment(w),
    ensures
        components(y + w) == components(y).push(w),
    decreases w.len(),
{
    let s = y + w;
    assert(s.drop_last() =~= y + w.drop_last());
    if w.len() == 1 {
        assert(y + w.drop_last() =~= y);
        assert(w =~= seq![w[0]]);
    } else {
        lemma_components_append_segment(y, w.drop_last());
        assert(w.drop_last().push(w.last()) =~= w);
    }
}

proof fn lemma_components_of_rendered(segs: Seq<Seq<char>>)
    requires
        clean_segments(segs),
    ensures
        components(seq!['/'] + join_segments(segs)) == segs,
    decreases segs.len(),
{
    let root = seq!['/'];
    assert(root.drop_last() =~= Seq::<char>::empty());
    assert(components(root) == components(Seq::<char>::empty()));
    if segs.len() == 0 {
        assert(root + join_segments(segs) =~= root);
    } else if segs.len() == 1 {
        assert(clean_segment(segs[0]));
        lemma_components_append_segment(root, segs[0]);
        assert(segs =~= seq![].push(segs[0]));
    } else {
        let front = segs.drop_last();
        assert(clean_segments(front)) by {
            assert forall|i: int| 0 <= i < front.len() implies clean_segment(
                #[trigger] front[i],
            ) by {
                assert(front[i] == segs[i]);
            }
        }
        lemma_components_of_rendered(front);
        let y = root + join_segments(front) + seq!['/'];
        assert(y.drop_last() =~= root + join_segments(front));
        assert(components(y) == front);
        assert(clean_segment(segs[segs.len() - 1]));
        lemma_components_append_segment(y, segs.last());
        assert(root + join_segments(segs) =~= y + segs.last());
        assert(front.push(segs.last()) =~= segs);
    }
}

proof fn lemma_resolve_clean(stack: Seq<Seq<char>>, rest: Seq<Seq<char>>)
    requires
        clean_segments(stack),
        clean_segments(rest),
    ensures
        clean_segments(resolve_segments(stack, rest)),
    decreases rest.len(),
{
    if rest.len() > 0 {
        let c = rest[0];
        let next = if c == seq!['.'] {
            stack
        } else if c == seq!['.', '.'] {
            if stack.len() > 0 {
                stack.drop_last()
            } else {
                stack
            }
        } else {
            stack.push(c)
        };
        assert(clean_segments(next)) by {
            assert forall|i: int| 0 <= i < next.len() implies clean_segment(#[trigger] next[i]) by {
                if i < stack.len() {
                    assert(clean_segment(stack[i]));
                } else {
                    assert(clean_segment(rest[0]));
                }
            }
        }
        assert(clean_segments(rest.drop_first())) by {
            assert forall|i: int| 0 <= i < rest.drop_first().len() implies clean_segment(
                #[trigger] rest.drop_first()[i],
            ) by {
                assert(clean_segment(rest[i + 1]));
            }
        }
        lemma_resolve_clean(next, rest.drop_first());
    }
}

/// Whatever canonicalization gave back, a resolved path never lies outside
/// the sandbox root; and a request path whose `..` components lead out of the
/// root, in a tree without links where its target exists, is refused as a
/// traversal.
pub proof fn lemma_escape_refused(
    base: Seq<char>,
    rel: Seq<char>,
    canonical: Option<Seq<char>>,
    r: Result<String, AppError>,
)
    requires
        resolves_to(base, canonical, r),
    ensures
        r matches Ok(p) ==> within(base, p@),
        canonical == Some(lexical_canonical(joined(base, rel))) && !within(
            base,
            lexical_canonical(joined(base, rel)),
        ) ==> r matches Err(AppError::Forbidden(_)),
{
}

/// Resolving a request path that stays in the sandbox root, in a tree without
/// links where its target exists, and relativizing the result gives back the
/// canonical form of the request path: its components with `.` and `..`
/// resolved, past those of the root.
pub proof fn lemma_resolve_relativize_round_trip(
    base: Seq<char>,
    rel: Seq<char>,
    resolved: Result<String, AppError>,
    relative: Result<String, AppError>,
)
    requires
        within(base, lexical_canonical(joined(base, rel))),
        resolves_to(base, Some(lexical_canonical(joined(base, rel))), resolved),
        resolved matches Ok(p) && relativizes(base, p@, relative),
    ensures
        relative matches Ok(t) && t@ == join_segments(
            resolve_segments(seq![], components(joined(base, rel))).subrange(
                components(base).len() as int,
                resolve_segments(seq![], components(joined(base, rel))).len() as int,
            ),
        ),
{
    let segs = resolve_segments(seq![], components(joined(base, rel)));
    lemma_components_clean(joined(base, rel));
    lemma_resolve_clean(seq![], components(joined(base, rel)));
    lemma_components_of_rendered(segs);
}

} // verus!
