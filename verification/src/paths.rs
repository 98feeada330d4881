//! Unix paths as text: splitting into components, joining, and stripping a prefix.
//!
//! A path is a sequence of components. Repeated slashes and inner `.` segments do not count as
//! components; a leading `/` and a leading `.` segment do.

use crate::text::{chars_of, find, find_is, find_unique, same, text_of};
use vstd::prelude::*;

verus! {

/// One component of a path.
pub enum Part {
    /// The leading `/`.
    Root,
    /// A leading `.` segment.
    Current,
    /// A `..` segment.
    Parent,
    /// Any other segment.
    Name(Seq<char>),
}

/// The text up to the first slash.
pub open spec fn segment(p: Seq<char>) -> Seq<char> {
    p.take(find(p, '/') as int)
}

/// The text behind the first slash.
pub open spec fn beyond(p: Seq<char>) -> Seq<char> {
    if find(p, '/') < p.len() {
        p.skip(find(p, '/') as int + 1)
    } else {
        Seq::empty()
    }
}

/// A segment that is no component: an empty one, or `.`.
pub open spec fn is_blank(seg: Seq<char>) -> bool {
    seg.len() == 0 || (seg.len() == 1 && seg[0] == '.')
}

/// The component that a segment stands for.
pub open spec fn part_of(seg: Seq<char>) -> Part {
    if seg.len() == 2 && seg[0] == '.' && seg[1] == '.' {
        Part::Parent
    } else {
        Part::Name(seg)
    }
}

/// The components of a path behind its beginning.
pub open spec fn body(p: Seq<char>) -> Seq<Part>
    decreases p.len(),
    via body_decreases
{
    if p.len() == 0 {
        Seq::empty()
    } else if is_blank(segment(p)) {
        body(beyond(p))
    } else {
        seq![part_of(segment(p))] + body(beyond(p))
    }
}

#[via_fn]
proof fn body_decreases(p: Seq<char>) {
    find_is(p, '/');
}

/// The component that only a beginning can have: `/`, or a `.` segment.
pub open spec fn head(p: Seq<char>) -> Seq<Part> {
    if p.len() > 0 && p[0] == '/' {
        seq![Part::Root]
    } else if p.len() > 0 && p[0] == '.' && (p.len() == 1 || p[1] == '/') {
        seq![Part::Current]
    } else {
        Seq::empty()
    }
}

/// The components of a path.
pub open spec fn parts(p: Seq<char>) -> Seq<Part> {
    head(p) + body(p.skip(head(p).len() as int))
}

/// A path without the blank segments at its beginning.
pub open spec fn trim_left(p: Seq<char>) -> Seq<char>
    decreases p.len(),
    via trim_left_decreases
{
    if p.len() > 0 && is_blank(segment(p)) {
        trim_left(beyond(p))
    } else {
        p
    }
}

#[via_fn]
proof fn trim_left_decreases(p: Seq<char>) {
    find_is(p, '/');
}

/// The length of the segment behind the last slash.
pub open spec fn tail_len(p: Seq<char>) -> nat
    decreases p.len(),
{
    if p.len() == 0 || p.last() == '/' {
        0
    } else {
        1 + tail_len(p.drop_last())
    }
}

/// A path without the blank segments at its end; the first `keep` characters stay.
pub open spec fn trim_right(p: Seq<char>, keep: int) -> Seq<char>
    decreases p.len(),
    via trim_right_decreases
{
    let t = tail_len(p.skip(keep));
    if p.len() <= keep || keep < 0 {
        p
    } else if !is_blank(p.skip(p.len() - t)) {
        p
    } else if t < p.len() - keep {
        trim_right(p.take(p.len() - t - 1), keep)
    } else {
        trim_right(p.take(p.len() - t), keep)
    }
}

proof fn tail_len_is(p: Seq<char>)
    ensures
        tail_len(p) <= p.len(),
        tail_len(p) < p.len() ==> p[p.len() - tail_len(p) - 1] == '/',
        forall|i: int| p.len() - tail_len(p) <= i < p.len() ==> p[i] != '/',
    decreases p.len(),
{
    if p.len() > 0 && p.last() != '/' {
        let q = p.drop_last();
        tail_len_is(q);
        assert forall|i: int| p.len() - tail_len(p) <= i < p.len() implies p[i] != '/' by {
            if i < q.len() {
                assert(q[i] == p[i]);
            }
        }
    }
}

/// `tail_len` is settled by the last slash.
pub proof fn tail_len_unique(p: Seq<char>, t: int)
    requires
        0 <= t <= p.len(),
        t < p.len() ==> p[p.len() - t - 1] == '/',
        forall|i: int| p.len() - t <= i < p.len() ==> p[i] != '/',
    ensures
        tail_len(p) == t,
{
    tail_len_is(p);
}

#[via_fn]
proof fn trim_right_decreases(p: Seq<char>, keep: int) {
    if 0 <= keep < p.len() {
        tail_len_is(p.skip(keep));
    }
}

/// A path behind its first `n` segments that are components.
pub open spec fn drop_parts(p: Seq<char>, n: nat) -> Seq<char>
    decreases n,
{
    if n == 0 {
        p
    } else {
        drop_parts(beyond(trim_left(p)), (n - 1) as nat)
    }
}

/// `base` makes up the first components of `path`.
pub open spec fn starts_with(path: Seq<char>, base: Seq<char>) -> bool {
    parts(base).is_prefix_of(parts(path))
}

/// What is left of `path` behind as many components as `base` has.
pub open spec fn remainder(path: Seq<char>, base: Seq<char>) -> Seq<char> {
    let n = parts(base).len();
    if n == 0 {
        trim_right(path, head(path).len() as int)
    } else {
        trim_right(
            trim_left(drop_parts(path.skip(head(path).len() as int), (n - head(path).len()) as nat)),
            0,
        )
    }
}

/// `path` relative to `base`, where `base` is a prefix of it.
pub open spec fn stripped(path: Seq<char>, base: Seq<char>) -> Option<Seq<char>> {
    if starts_with(path, base) {
        Some(remainder(path, base))
    } else {
        None
    }
}

/// `p` put behind `base`; an absolute `p` replaces it.
pub open spec fn joined(base: Seq<char>, p: Seq<char>) -> Seq<char> {
    if p.len() > 0 && p[0] == '/' {
        p
    } else if base.len() == 0 || base.last() == '/' {
        base + p
    } else {
        base.push('/') + p
    }
}

/// A relative path that cannot leave the directory it is put behind: there is something in it,
/// it has no leading `/` and no `..` component.
pub open spec fn is_safe(rel: Seq<char>) -> bool {
    &&& rel.len() > 0
    &&& forall|i: int|
        0 <= i < parts(rel).len() ==> (#[trigger] parts(rel)[i] is Name || parts(rel)[i] is Current)
}

/// The name of the file that a path ends in.
pub open spec fn name_of(p: Seq<char>) -> Option<Seq<char>> {
    if parts(p).len() > 0 && parts(p).last() is Name {
        Some(parts(p).last()->Name_0)
    } else {
        None
    }
}

/// One component of a path.
#[derive(Debug, PartialEq, Eq)]
pub enum Component {
    /// The leading `/`.
    Root,
    /// A leading `.` segment.
    Current,
    /// A `..` segment.
    Parent,
    /// Any other segment.
    Name(String),
}

impl View for Component {
    type V = Part;

    open spec fn view(&self) -> Part {
        match *self {
            Component::Root => Part::Root,
            Component::Current => Part::Current,
            Component::Parent => Part::Parent,
            Component::Name(s) => Part::Name(s@),
        }
    }
}

/// The components that a list of them stands for.
pub open spec fn parts_of(v: Seq<Component>) -> Seq<Part> {
    Seq::new(v.len(), |i: int| v[i]@)
}

/// Where the segment that starts at `i` ends.
fn segment_end(v: &Vec<char>, i: usize) -> (k: usize)
    requires
        i <= v@.len(),
    ensures
        i <= k <= v@.len(),
        k - i == find(v@.skip(i as int), '/'),
        segment(v@.skip(i as int)) == v@.subrange(i as int, k as int),
        beyond(v@.skip(i as int)) == v@.skip(if k < v@.len() {
            k + 1
        } else {
            k as int
        }),
{
    let mut k: usize = i;
    while k < v.len() && v[k] != '/'
        invariant
            i <= k <= v@.len(),
            forall|j: int| i <= j < k ==> v@[j] != '/',
        decreases v@.len() - k,
    {
        k += 1;
    }
    proof {
        let p = v@.skip(i as int);
        find_unique(p, '/', k - i);
        assert(p.take(k - i) =~= v@.subrange(i as int, k as int));
        if k < v@.len() {
            assert(p.skip(k - i + 1) =~= v@.skip(k + 1));
        } else {
            assert(v@.skip(k as int) =~= Seq::<char>::empty());
        }
    }
    k
}

fn blank(v: &Vec<char>, i: usize, k: usize) -> (r: bool)
    requires
        i <= k <= v@.len(),
    ensures
        r == is_blank(v@.subrange(i as int, k as int)),
{
    k == i || (k == i + 1 && v[i] == '.')
}

fn head_len(v: &Vec<char>) -> (n: usize)
    ensures
        n == head(v@).len(),
        n <= v@.len(),
        n <= 1,
{
    if v.len() > 0 && (v[0] == '/' || (v[0] == '.' && (v.len() == 1 || v[1] == '/'))) {
        1
    } else {
        0
    }
}

/// Splits a path into its components.
pub fn components(p: &str) -> (out: Vec<Component>)
    ensures
        parts_of(out@) == parts(p@),
{
    let v = chars_of(p);
    let mut out: Vec<Component> = Vec::new();
    let mut i: usize = head_len(&v);
    if i == 1 {
        if v[0] == '/' {
            out.push(Component::Root);
        } else {
            out.push(Component::Current);
        }
    }
    proof {
        assert(parts_of(out@) =~= head(p@));
    }
    while i < v.len()
        invariant
            v@ == p@,
            i <= v@.len(),
            parts_of(out@) + body(p@.skip(i as int)) == parts(p@),
        decreases v@.len() - i,
    {
        let k = segment_end(&v, i);
        let next = if k < v.len() {
            k + 1
        } else {
            k
        };
        let ghost rest = p@.skip(i as int);
        let ghost was = out@;
        if blank(&v, i, k) {
        } else {
            let part = if k - i == 2 && v[i] == '.' && v[i + 1] == '.' {
                Component::Parent
            } else {
                Component::Name(text_of(&v, i, k))
            };
            proof {
                assert(part@ == part_of(segment(rest)));
            }
            out.push(part);
            proof {
                assert(parts_of(out@) =~= parts_of(was).push(part@));
                assert(parts_of(out@) + body(beyond(rest)) =~= parts_of(was) + (seq![part@] + body(
                    beyond(rest),
                )));
            }
        }
        i = next;
    }
    proof {
        assert(p@.skip(i as int).len() == 0);
        assert(parts_of(out@) + body(p@.skip(i as int)) =~= parts_of(out@));
    }
    out
}

/// Whether two components are the same.
fn same_part(a: &Component, b: &Component) -> (r: bool)
    ensures
        r == (a@ == b@),
{
    match (a, b) {
        (Component::Root, Component::Root) => true,
        (Component::Current, Component::Current) => true,
        (Component::Parent, Component::Parent) => true,
        (Component::Name(x), Component::Name(y)) => same(x.as_str(), y.as_str()),
        _ => false,
    }
}

/// Where the path from `i` on begins once its leading blank segments are gone.
fn skip_blank(v: &Vec<char>, i: usize) -> (j: usize)
    requires
        i <= v@.len(),
    ensures
        i <= j <= v@.len(),
        v@.skip(j as int) == trim_left(v@.skip(i as int)),
{
    let mut j: usize = i;
    while j < v.len()
        invariant
            i <= j <= v@.len(),
            trim_left(v@.skip(j as int)) == trim_left(v@.skip(i as int)),
        decreases v@.len() - j,
    {
        let k = segment_end(v, j);
        if !blank(v, j, k) {
            return j;
        }
        j = if k < v.len() {
            k + 1
        } else {
            k
        };
    }
    j
}

/// Where the path from `i` on begins once `n` components are gone.
fn skip_parts(v: &Vec<char>, i: usize, n: usize) -> (j: usize)
    requires
        i <= v@.len(),
    ensures
        i <= j <= v@.len(),
        v@.skip(j as int) == drop_parts(v@.skip(i as int), n as nat),
    decreases n,
{
    if n == 0 {
        i
    } else {
        let a = skip_blank(v, i);
        let k = segment_end(v, a);
        let b = if k < v.len() {
            k + 1
        } else {
            k
        };
        skip_parts(v, b, n - 1)
    }
}

/// Where `v[from..to]` ends once its trailing blank segments are gone.
fn cut_blank(v: &Vec<char>, from: usize, to: usize, keep: usize) -> (end: usize)
    requires
        from <= to <= v@.len(),
        from + keep <= to,
    ensures
        from <= end <= to,
        v@.subrange(from as int, end as int) == trim_right(
            v@.subrange(from as int, to as int),
            keep as int,
        ),
{
    let mut end: usize = to;
    while end > from + keep
        invariant
            from + keep <= end <= to <= v@.len(),
            trim_right(v@.subrange(from as int, end as int), keep as int) == trim_right(
                v@.subrange(from as int, to as int),
                keep as int,
            ),
        decreases end,
    {
        let mut k: usize = end;
        while k > from + keep && v[k - 1] != '/'
            invariant
                from + keep <= k <= end <= v@.len(),
                forall|j: int| k <= j < end ==> v@[j] != '/',
            decreases k,
        {
            k -= 1;
        }
        let ghost p = v@.subrange(from as int, end as int);
        proof {
            tail_len_unique(p.skip(keep as int), end - k);
            assert(p.skip(p.len() - (end - k)) =~= v@.subrange(k as int, end as int));
        }
        if !blank(v, k, end) {
            return end;
        }
        if k > from + keep {
            proof {
                assert(p.take(p.len() - (end - k) - 1) =~= v@.subrange(from as int, k - 1));
            }
            end = k - 1;
        } else {
            proof {
                assert(p.take(p.len() - (end - k)) =~= v@.subrange(from as int, k as int));
            }
            end = k;
        }
    }
    end
}

/// `path` relative to `base`, or `None` where `base` is no prefix of it.
pub fn strip_prefix(path: &str, base: &str) -> (r: Option<String>)
    ensures
        match r {
            Some(rel) => stripped(path@, base@) == Some(rel@),
            None => stripped(path@, base@) is None,
        },
{
    let a = components(path);
    let b = components(base);
    if b.len() > a.len() {
        return None;
    }
    let mut i: usize = 0;
    while i < b.len()
        invariant
            i <= b@.len() <= a@.len(),
            parts_of(a@) == parts(path@),
            parts_of(b@) == parts(base@),
            forall|j: int| 0 <= j < i ==> parts(path@)[j] == #[trigger] parts(base@)[j],
        decreases b@.len() - i,
    {
        proof {
            assert(parts_of(a@)[i as int] == a@[i as int]@);
            assert(parts_of(b@)[i as int] == b@[i as int]@);
        }
        if !same_part(&a[i], &b[i]) {
            proof {
                if starts_with(path@, base@) {
                    assert(parts(path@).subrange(0, b@.len() as int)[i as int] == parts(base@)[i as int]);
                }
            }
            return None;
        }
        i += 1;
    }
    proof {
        assert(parts(base@) =~= parts(path@).subrange(0, b@.len() as int));
    }
    let v = chars_of(path);
    let h = head_len(&v);
    let n = b.len();
    if n == 0 {
        let end = cut_blank(&v, 0, v.len(), h);
        proof {
            assert(v@.subrange(0, v@.len() as int) =~= v@);
        }
        Some(text_of(&v, 0, end))
    } else {
        let from = skip_parts(&v, h, n - h);
        let start = skip_blank(&v, from);
        let end = cut_blank(&v, start, v.len(), 0);
        proof {
            assert(v@.subrange(start as int, v@.len() as int) =~= v@.skip(start as int));
        }
        Some(text_of(&v, start, end))
    }
}

/// Puts `p` behind `base`; an absolute `p` replaces it.
pub fn join(base: &str, p: &str) -> (r: String)
    ensures
        r@ == joined(base@, p@),
        r@ == (if p@.len() > 0 && p@[0] == '/' {
            p@
        } else if base@.len() == 0 || base@[base@.len() - 1] == '/' {
            base@ + p@
        } else {
            base@ + seq!['/'] + p@
        }),
{
    let v = chars_of(p);
    if v.len() > 0 && v[0] == '/' {
        return p.to_owned();
    }
    let b = chars_of(base);
    let mut r = base.to_owned();
    if b.len() > 0 && b[b.len() - 1] != '/' {
        r.push('/');
    }
    vstd::string::StringExecFns::append(&mut r, p);
    proof {
        assert(base@.push('/') =~= base@ + seq!['/']);
    }
    r
}

/// Whether a relative path has something in it, no leading `/` and no `..` component.
pub fn safe(rel: &str) -> (r: bool)
    ensures
        r == is_safe(rel@),
        r == (rel@.len() > 0 && rel@[0] != '/' && !exists|i: int|
            #![trigger rel@[i]]
            0 <= i < rel@.len() - 1 && rel@[i] == '.' && rel@[i + 1] == '.' && (i == 0 || rel@[i
                - 1] == '/') && (i + 2 == rel@.len() || rel@[i + 2] == '/')),
{
    proof {
        safe_is_by_segments(rel@);
    }
    let parts_v = components(rel);
    if rel.is_empty() {
        return false;
    }
    let mut i: usize = 0;
    while i < parts_v.len()
        invariant
            i <= parts_v@.len(),
            parts_of(parts_v@) == parts(rel@),
            forall|j: int|
                0 <= j < i ==> (#[trigger] parts(rel@)[j] is Name || parts(rel@)[j] is Current),
        decreases parts_v@.len() - i,
    {
        proof {
            assert(parts_of(parts_v@)[i as int] == parts_v@[i as int]@);
        }
        match &parts_v[i] {
            Component::Name(_) => {},
            Component::Current => {},
            _ => {
                proof {
                    safe_is_by_segments(rel@);
                }
                return false;
            },
        }
        i += 1;
    }
    true
}

/// Whether `p` is `root` or something below it, with no `..` behind it.
pub fn is_inside(root: &str, p: &str) -> (r: bool)
    ensures
        r == inside(root@, p@),
{
    if strip_prefix(p, root).is_none() {
        return false;
    }
    let top = components(root);
    let v = components(p);
    let mut i: usize = top.len();
    proof {
        assert(parts_of(top@).len() == top@.len());
        assert(parts_of(v@).len() == v@.len());
        assert(parts(root@).len() <= parts(p@).len());
    }
    while i < v.len()
        invariant
            top@.len() <= i <= v@.len(),
            parts(root@).len() == top@.len(),
            parts_of(v@) == parts(p@),
            starts_with(p@, root@),
            forall|j: int|
                top@.len() <= j < i ==> (#[trigger] parts(p@)[j] is Name || parts(
                    p@,
                )[j] is Current),
        decreases v@.len() - i,
    {
        proof {
            assert(parts_of(v@)[i as int] == v@[i as int]@);
        }
        match &v[i] {
            Component::Name(_) => {},
            Component::Current => {},
            _ => {
                return false;
            },
        }
        i += 1;
    }
    proof {
        assert(parts_of(v@).len() == v@.len());
    }
    true
}

/// The path lies beneath the other, below it in the same directory tree. A leading `/` or `.`
/// makes no difference.
pub open spec fn is_beneath(path: Seq<char>, above: Seq<char>) -> bool {
    body(above).len() < body(path).len() && body(above).is_prefix_of(body(path))
}

/// Whether the path lies beneath the other.
pub fn beneath(path: &str, above: &str) -> (r: bool)
    ensures
        r == is_beneath(path@, above@),
{
    let p = components(path);
    let a = components(above);
    proof {
        body_behind_head(path@);
        body_behind_head(above@);
    }
    let hp = lead(path, &p);
    let ha = lead(above, &a);
    let ghost bp = body(path@);
    let ghost ba = body(above@);
    let pl: usize = p.len();
    let al: usize = a.len();
    let np: usize = pl - hp;
    let na: usize = al - ha;
    if na >= np {
        return false;
    }
    let mut i: usize = 0;
    while i < na
        invariant
            i <= na < np,
            pl == p@.len(),
            al == a@.len(),
            np == pl - hp,
            na == al - ha,
            hp <= pl,
            ha <= al,
            bp == body(path@),
            ba == body(above@),
            bp == parts_of(p@).skip(hp as int),
            ba == parts_of(a@).skip(ha as int),
            ba.len() == na,
            bp.len() == np,
            forall|j: int| 0 <= j < i ==> ba[j] == #[trigger] bp[j],
        decreases na - i,
    {
        proof {
            assert(ba[i as int] == a@[ha + i]@);
            assert(bp[i as int] == p@[hp + i]@);
        }
        if !same_part(&a[ha + i], &p[hp + i]) {
            proof {
                if ba.is_prefix_of(bp) {
                    assert(ba[i as int] == bp.subrange(0, ba.len() as int)[i as int]);
                }
            }
            return false;
        }
        i += 1;
    }
    proof {
        assert(ba =~= bp.subrange(0, ba.len() as int));
    }
    true
}

/// How many of the components are the leading `/` or `.`.
fn lead(path: &str, v: &Vec<Component>) -> (n: usize)
    requires
        parts_of(v@) == parts(path@),
    ensures
        n == head(path@).len(),
        n <= v@.len(),
        parts_of(v@).skip(n as int) == body(path@.skip(head(path@).len() as int)),
{
    let c = chars_of(path);
    let n = head_len(&c);
    proof {
        let h = head(path@);
        assert(h.len() == n);
        assert(parts(path@) == h + body(path@.skip(n as int)));
        assert(parts_of(v@).skip(n as int) =~= body(path@.skip(n as int)));
        assert(v@.len() == parts_of(v@).len());
    }
    n
}

/// The leading `/` or `.` is no segment of its own.
proof fn body_behind_head(p: Seq<char>)
    ensures
        body(p) == body(p.skip(head(p).len() as int)),
{
    if p.len() > 0 && p[0] == '/' {
        find_unique(p, '/', 0);
        assert(segment(p).len() == 0);
        assert(beyond(p) =~= p.skip(1));
    } else if p.len() > 0 {
        body_without_head(p);
    } else {
        assert(p.skip(0) =~= p);
    }
}

/// The name of the file that a path ends in.
pub fn file_name(p: &str) -> (r: Option<String>)
    ensures
        match r {
            Some(n) => name_of(p@) == Some(n@),
            None => name_of(p@) is None,
        },
{
    let v = components(p);
    if v.len() == 0 {
        proof {
            assert(parts_of(v@).len() == 0);
        }
        return None;
    }
    proof {
        assert(parts_of(v@).last() == v@[v@.len() - 1]@);
    }
    match &v[v.len() - 1] {
        Component::Name(n) => Some(n.clone()),
        _ => None,
    }
}

// ---- laws ----------------------------------------------------------------------------------
/// `a/b`, taken as text.
spec fn slashed(a: Seq<char>, b: Seq<char>) -> Seq<char> {
    a.push('/') + b
}

/// The first segment of `a/b` is that of `a`, and so is what follows it.
proof fn slashed_first(a: Seq<char>, b: Seq<char>)
    ensures
        segment(slashed(a, b)) == segment(a),
        find(a, '/') < a.len() ==> beyond(slashed(a, b)) == slashed(beyond(a), b),
        find(a, '/') == a.len() ==> beyond(slashed(a, b)) == b,
        slashed(a, b).len() > 0,
{
    let q = slashed(a, b);
    find_is(a, '/');
    let k = find(a, '/') as int;
    assert forall|i: int| 0 <= i < k implies q[i] != '/' by {
        assert(q[i] == a[i]);
    }
    assert(q[k] == '/');
    find_unique(q, '/', k);
    assert(q.take(k) =~= a.take(k));
    if k < a.len() {
        assert(q.skip(k + 1) =~= slashed(a.skip(k + 1), b));
    } else {
        assert(q.skip(k + 1) =~= b);
    }
}

/// The components of `a/b` behind its beginning are those of `a` and then those of `b`.
proof fn body_of_slashed(a: Seq<char>, b: Seq<char>)
    ensures
        body(slashed(a, b)) == body(a) + body(b),
    decreases a.len(),
{
    slashed_first(a, b);
    find_is(a, '/');
    if a.len() == 0 {
        assert(body(a) + body(b) =~= body(b));
    } else {
        if find(a, '/') < a.len() {
            body_of_slashed(beyond(a), b);
        } else {
            assert(body(Seq::<char>::empty()) + body(b) =~= body(b));
        }
        if is_blank(segment(a)) {
        } else {
            let one = seq![part_of(segment(a))];
            assert(one + (body(beyond(a)) + body(b)) =~= (one + body(beyond(a))) + body(b));
        }
    }
}

/// Dropping the components of `a` from `a/b` leaves `b`.
proof fn drop_of_slashed(a: Seq<char>, b: Seq<char>)
    ensures
        trim_left(drop_parts(slashed(a, b), body(a).len())) == trim_left(b),
    decreases a.len(),
{
    let q = slashed(a, b);
    let n = body(a).len();
    slashed_first(a, b);
    find_is(a, '/');
    let empty = Seq::<char>::empty();
    assert(body(empty).len() == 0);
    if a.len() == 0 {
        assert(a.take(0).len() == 0);
        assert(trim_left(q) == trim_left(beyond(q)));
        assert(n == 0);
    } else {
        if find(a, '/') < a.len() {
            drop_of_slashed(beyond(a), b);
        }
        if is_blank(segment(a)) {
            assert(trim_left(q) == trim_left(beyond(q)));
            assert(n == body(beyond(a)).len());
            if n > 0 {
                assert(drop_parts(q, n) == drop_parts(beyond(trim_left(q)), (n - 1) as nat));
                assert(drop_parts(beyond(q), n) == drop_parts(
                    beyond(trim_left(beyond(q))),
                    (n - 1) as nat,
                ));
            }
        } else {
            assert(trim_left(q) == q);
            assert(n == body(beyond(a)).len() + 1);
            assert(drop_parts(q, n) == drop_parts(beyond(q), (n - 1) as nat));
        }
    }
}

/// The components of a joined path, where the second path is relative.
proof fn parts_of_joined(base: Seq<char>, rel: Seq<char>)
    requires
        base.len() > 0,
        rel.len() == 0 || rel[0] != '/',
    ensures
        parts(joined(base, rel)) == parts(base) + body(rel),
        head(joined(base, rel)) == head(base),
        base.last() != '/' ==> joined(base, rel).skip(head(base).len() as int) == slashed(
            base.skip(head(base).len() as int),
            rel,
        ),
{
    let q = joined(base, rel);
    let h = head(base).len() as int;
    assert(head(q) == head(base));
    if base.last() != '/' {
        let a = base.skip(h);
        assert(q.skip(h) =~= slashed(a, rel));
        body_of_slashed(a, rel);
    } else if h == base.len() {
        assert(q.skip(h) =~= rel);
        assert(base.skip(h).len() == 0);
        assert(body(base.skip(h)) + body(rel) =~= body(rel));
    } else {
        let a = base.drop_last().skip(h);
        assert(q.skip(h) =~= slashed(a, rel));
        assert(base.skip(h) =~= slashed(a, Seq::empty()));
        body_of_slashed(a, rel);
        body_of_slashed(a, Seq::empty());
        assert(body(a) + body(Seq::<char>::empty()) =~= body(a));
    }
    assert(head(base) + (body(base.skip(h)) + body(rel)) =~= parts(base) + body(rel));
}

/// `p` is `root` or something below it.
pub open spec fn inside(root: Seq<char>, p: Seq<char>) -> bool {
    &&& starts_with(p, root)
    &&& forall|i: int|
        parts(root).len() <= i < parts(p).len() ==> (#[trigger] parts(p)[i] is Name || parts(
            p,
        )[i] is Current)
}

/// A path that begins with a `.` segment has the components that it has without it.
proof fn body_without_head(rel: Seq<char>)
    requires
        rel.len() > 0,
        rel[0] != '/',
    ensures
        body(rel) == body(rel.skip(head(rel).len() as int)),
{
    if head(rel).len() == 0 {
        assert(rel.skip(0) =~= rel);
    } else {
        let rest = rel.skip(1);
        if rel.len() == 1 {
            find_unique(rel, '/', 1);
            assert(segment(rel) =~= rel);
            assert(beyond(rel).len() == 0);
            assert(body(beyond(rel)) =~= body(rest));
        } else {
            find_unique(rel, '/', 1);
            assert(segment(rel).len() == 1 && segment(rel)[0] == '.');
            find_unique(rest, '/', 0);
            assert(segment(rest).len() == 0);
            assert(rest.skip(1) =~= rel.skip(2));
        }
    }
}

/// A safe relative path, put behind any directory, stays inside that directory.
pub proof fn safe_path_stays_inside(root: Seq<char>, rel: Seq<char>)
    requires
        is_safe(rel),
    ensures
        inside(root, joined(root, rel)),
{
    assert(rel[0] != '/') by {
        if rel[0] == '/' {
            assert(parts(rel)[0] == Part::Root);
        }
    }
    let q = joined(root, rel);
    if root.len() == 0 {
        assert(q =~= rel);
        assert(parts(root).len() == 0);
        assert(parts(root) =~= parts(q).subrange(0, 0));
    } else {
        parts_of_joined(root, rel);
        body_without_head(rel);
        let n = parts(root).len() as int;
        assert(parts(root) =~= parts(q).subrange(0, n));
        let h = head(rel).len() as int;
        assert forall|i: int| n <= i < parts(q).len() implies (#[trigger] parts(q)[i] is Name
            || parts(q)[i] is Current) by {
            assert(parts(q)[i] == body(rel)[i - n]);
            assert(parts(rel)[i - n + h] == body(rel)[i - n]);
        }
    }
}

/// Stripping a directory off what was put behind it gives that back, less the blank segments
/// at its ends.
pub proof fn strip_undoes_join(root: Seq<char>, rel: Seq<char>)
    requires
        root.len() > 0,
        rel.len() == 0 || rel[0] != '/',
    ensures
        stripped(joined(root, rel), root) == Some(trim_right(trim_left(rel), 0)),
{
    let q = joined(root, rel);
    let h = head(root).len() as int;
    parts_of_joined(root, rel);
    let n = parts(root).len();
    assert(parts(root) =~= parts(q).subrange(0, n as int));
    if root.last() != '/' {
        let a = root.skip(h);
        drop_of_slashed(a, rel);
        if n == 0 {
            // A root that is not empty and has no component would be blank throughout.
            root_has_parts(root);
        }
        assert(remainder(q, root) == trim_right(trim_left(rel), 0));
    } else if h == root.len() {
        assert(q.skip(h) =~= rel);
        assert(root.skip(h).len() == 0);
        assert(n == 1);
    } else {
        let a = root.drop_last().skip(h);
        assert(q.skip(h) =~= slashed(a, rel));
        assert(root.skip(h) =~= slashed(a, Seq::empty()));
        body_of_slashed(a, Seq::empty());
        assert(body(a) + body(Seq::<char>::empty()) =~= body(a));
        drop_of_slashed(a, rel);
        if n == 0 {
            root_has_parts(root);
        }
    }
}

/// A path with something in it has at least one component.
proof fn root_has_parts(p: Seq<char>)
    requires
        p.len() > 0,
    ensures
        parts(p).len() > 0,
{
    if head(p).len() == 0 {
        find_is(p, '/');
        assert(p.skip(0) =~= p);
        let seg = segment(p);
        assert(seg.len() > 0);
        if is_blank(seg) {
            assert(p[0] == seg[0]);
            assert(p.len() == 1 || p[1] == '/');
        }
    }
}

// ---- laws ----------------------------------------------------------------------------------
/// A `..` stands between slashes, or the ends of the path, at `i`.
spec fn dots_at(p: Seq<char>, i: int) -> bool {
    &&& 0 <= i < p.len() - 1
    &&& p[i] == '.'
    &&& p[i + 1] == '.'
    &&& i == 0 || p[i - 1] == '/'
    &&& i + 2 == p.len() || p[i + 2] == '/'
}

/// The components behind the beginning are names and `..`, and a `..` is among them exactly where
/// one stands between slashes.
proof fn parents_are_dots(p: Seq<char>)
    ensures
        forall|k: int|
            0 <= k < body(p).len() ==> (#[trigger] body(p)[k] is Parent || body(p)[k] is Name),
        (exists|k: int| 0 <= k < body(p).len() && #[trigger] body(p)[k] is Parent) <==> (exists|
            i: int,
        |
            #[trigger] dots_at(p, i)),
    decreases p.len(),
{
    if p.len() > 0 {
        find_is(p, '/');
        let f = find(p, '/') as int;
        let seg = segment(p);
        let rest = beyond(p);
        parents_are_dots(rest);
        let b = body(p);
        let skip: int = if is_blank(seg) {
            0
        } else {
            1
        };
        assert forall|k: int| skip <= k < b.len() implies #[trigger] b[k] == body(rest)[k
            - skip] by {}
        if exists|k: int| 0 <= k < b.len() && #[trigger] b[k] is Parent {
            let k = choose|k: int| 0 <= k < b.len() && #[trigger] b[k] is Parent;
            if k < skip {
                assert(seg[0] == p[0] && seg[1] == p[1]);
                assert(dots_at(p, 0));
            } else {
                assert(body(rest)[k - skip] is Parent);
                let i = choose|i: int| #[trigger] dots_at(rest, i);
                assert(rest =~= p.skip(f + 1));
                assert(dots_at(p, i + f + 1));
            }
        }
        if exists|i: int| #[trigger] dots_at(p, i) {
            let i = choose|i: int| #[trigger] dots_at(p, i);
            if i == 0 {
                find_unique(p, '/', 2);
                assert(seg =~= seq!['.', '.']);
                assert(b[0] == part_of(seg));
                assert(b[0] is Parent);
            } else {
                assert(f <= i - 1);
                assert(dots_at(rest, i - f - 1));
                let k = choose|k: int| 0 <= k < body(rest).len() && #[trigger] body(rest)[k] is Parent;
                assert(b[k + skip] is Parent);
            }
        }
    }
}

/// A path is accepted exactly if it is not empty, does not begin with a slash, and has no segment
/// that is `..`.
pub proof fn safe_is_by_segments(rel: Seq<char>)
    ensures
        is_safe(rel) == (rel.len() > 0 && rel[0] != '/' && !exists|i: int|
            #![trigger rel[i]]
            0 <= i < rel.len() - 1 && rel[i] == '.' && rel[i + 1] == '.' && (i == 0 || rel[i - 1]
                == '/') && (i + 2 == rel.len() || rel[i + 2] == '/')),
{
    let h = head(rel);
    let b = body(rel);
    body_behind_head(rel);
    parents_are_dots(rel);
    let all = parts(rel);
    assert(all =~= h + b);
    if rel.len() > 0 && rel[0] == '/' {
        assert(all[0] == Part::Root);
    }
    assert forall|k: int| h.len() <= k < all.len() implies #[trigger] all[k] == b[k
        - h.len()] by {}
    if exists|i: int| #[trigger] dots_at(rel, i) {
        let k = choose|k: int| 0 <= k < b.len() && #[trigger] b[k] is Parent;
        assert(all[k + h.len()] is Parent);
        let i = choose|i: int| #[trigger] dots_at(rel, i);
        assert(rel[i] == '.');
    }
    if rel.len() > 0 && rel[0] != '/' && !is_safe(rel) {
        let k = choose|k: int|
            0 <= k < all.len() && !(#[trigger] all[k] is Name || all[k] is Current);
        assert(b[k - h.len()] is Parent);
    }
    assert forall|i: int|
        #![trigger rel[i]]
        0 <= i < rel.len() - 1 && rel[i] == '.' && rel[i + 1] == '.' && (i == 0 || rel[i - 1]
            == '/') && (i + 2 == rel.len() || rel[i + 2] == '/') implies dots_at(rel, i) by {}
}

/// A text without a slash is one component: none if it is empty or `.`, the parent if it is `..`,
/// and itself otherwise.
pub proof fn one_segment_is(seg: Seq<char>)
    requires
        !seg.contains('/'),
    ensures
        seg.len() == 0 || seg == seq!['.'] ==> body(seg).len() == 0,
        seg == seq!['.', '.'] ==> body(seg) == seq![Part::Parent],
        seg.len() > 0 && seg != seq!['.'] && seg != seq!['.', '.'] ==> body(seg) == seq![
            Part::Name(seg),
        ],
{
    find_is(seg, '/');
    assert(segment(seg) =~= seg);
    assert(body(Seq::<char>::empty()) =~= Seq::<Part>::empty());
    if seg.len() == 1 && seg[0] == '.' {
        assert(seg =~= seq!['.']);
    }
    if seg.len() == 2 && seg[0] == '.' && seg[1] == '.' {
        assert(seg =~= seq!['.', '.']);
    }
    if seg.len() > 0 && seg != seq!['.'] {
        assert(body(seg) =~= seq![part_of(seg)]);
    }
}

/// The components of two paths with a slash between them are those of the one and those of the
/// other.
pub proof fn segments_add_up(a: Seq<char>, b: Seq<char>)
    ensures
        body(a + seq!['/'] + b) == body(a) + body(b),
{
    body_of_slashed(a, b);
    assert(a + seq!['/'] + b =~= slashed(a, b));
}

/// What a path begins with counts as a component only if it is a slash or a `.` segment.
pub proof fn beginning_is(p: Seq<char>)
    ensures
        p.len() > 0 && p[0] == '/' ==> parts(p) == seq![Part::Root] + body(p),
        p.len() > 0 && p[0] == '.' && (p.len() == 1 || p[1] == '/') ==> parts(p) == seq![
            Part::Current,
        ] + body(p),
        p.len() == 0 || (p[0] != '/' && !(p[0] == '.' && (p.len() == 1 || p[1] == '/')))
            ==> parts(p) == body(p),
{
    body_behind_head(p);
    assert(Seq::<Part>::empty() + body(p) =~= body(p));
}

/// A path below a directory, given by the directory, a slash and the rest, is the rest once the
/// directory is stripped off, if the rest has no empty or `.` segment at its ends.
pub proof fn stripping_gives_the_rest(base: Seq<char>, rel: Seq<char>)
    requires
        base.len() > 0,
        base.last() != '/',
        rel.len() > 0,
        rel[0] != '/',
        rel.last() != '/',
        !(rel[0] == '.' && (rel.len() == 1 || rel[1] == '/')),
        !(rel.last() == '.' && rel.len() > 1 && rel[rel.len() - 2] == '/'),
    ensures
        stripped(base + seq!['/'] + rel, base) == Some(rel),
{
    strip_undoes_join(base, rel);
    assert(base.push('/') =~= base + seq!['/']);
    assert(joined(base, rel) =~= base + seq!['/'] + rel);
    find_is(rel, '/');
    assert(segment(rel).len() > 0 && segment(rel)[0] == rel[0]);
    assert(trim_left(rel) == rel);
    assert(rel.skip(0) =~= rel);
    tail_len_is(rel);
    let t = tail_len(rel) as int;
    let tail = rel.skip(rel.len() - t);
    assert(tail.last() == rel.last());
    assert(!is_blank(tail));
    assert(trim_right(rel, 0) == rel);
}

/// A directory can be stripped off a path exactly if its components are the path's first ones.
pub proof fn stripping_is_by_components(path: Seq<char>, base: Seq<char>)
    ensures
        stripped(path, base) is Some <==> parts(base).is_prefix_of(parts(path)),
{
}

/// Joining puts a slash between a directory and a relative path, and an absolute path stays.
pub proof fn joining_puts_a_slash(base: Seq<char>, rel: Seq<char>)
    ensures
        rel.len() > 0 && rel[0] == '/' ==> joined(base, rel) == rel,
        !(rel.len() > 0 && rel[0] == '/') && (base.len() == 0 || base.last() == '/') ==> joined(
            base,
            rel,
        ) == base + rel,
        !(rel.len() > 0 && rel[0] == '/') && base.len() > 0 && base.last() != '/' ==> joined(
            base,
            rel,
        ) == base + seq!['/'] + rel,
{
    assert(base.push('/') =~= base + seq!['/']);
}

/// The name that a path ends in is what stands behind its last slash.
pub proof fn name_is_behind_the_last_slash(dir: Seq<char>, name: Seq<char>)
    requires
        name.len() > 0,
        !name.contains('/'),
        name != seq!['.'],
        name != seq!['.', '.'],
    ensures
        name_of(name) == Some(name),
        name_of(dir + seq!['/'] + name) == Some(name),
{
    one_segment_is(name);
    segments_add_up(dir, name);
    let p = dir + seq!['/'] + name;
    beginning_is(p);
    beginning_is(name);
    assert(p.len() > 0);
    assert(parts(p).last() == Part::Name(name)) by {
        let b = body(p);
        assert(b.last() == body(name).last());
        let x = seq![Part::Root] + b;
        let y = seq![Part::Current] + b;
        assert(x.last() == b.last());
        assert(y.last() == b.last());
    }
    if name[0] == '/' {
        assert(name.contains(name[0]));
    }
    if name[0] == '.' && name.len() == 1 {
        assert(name =~= seq!['.']);
    }
    if name.len() > 1 && name[1] == '/' {
        assert(name.contains(name[1]));
    }
}

/// What stands behind a path and a slash lies beneath the path, a path does not lie beneath
/// itself, and what lies beneath it begins with its components.
pub proof fn beneath_is_behind_a_slash(above: Seq<char>, name: Seq<char>, other: Seq<char>)
    requires
        name.len() > 0,
        !name.contains('/'),
        name != seq!['.'],
    ensures
        is_beneath(above + seq!['/'] + name, above),
        !is_beneath(above, above),
        is_beneath(other, above) ==> body(above).len() < body(other).len() && forall|i: int|
            0 <= i < body(above).len() ==> body(other)[i] == body(above)[i],
{
    one_segment_is(name);
    segments_add_up(above, name);
    let p = above + seq!['/'] + name;
    assert(body(above) =~= body(p).subrange(0, body(above).len() as int));
    if is_beneath(other, above) {
        assert(body(above) =~= body(other).subrange(0, body(above).len() as int));
        assert forall|i: int| 0 <= i < body(above).len() implies body(other)[i]
            == body(above)[i] by {
            assert(body(other).subrange(0, body(above).len() as int)[i] == body(other)[i]);
        }
    }
}

/// What stands behind a directory is inside it exactly if it is a safe path, and what is inside a
/// directory has a path from there.
pub proof fn inside_is_by_segments(root: Seq<char>, rel: Seq<char>, p: Seq<char>)
    requires
        root.len() > 0,
        rel.len() > 0,
        rel[0] != '/',
    ensures
        inside(root, joined(root, rel)) == is_safe(rel),
        inside(root, p) ==> stripped(p, root) is Some,
{
    if is_safe(rel) {
        safe_path_stays_inside(root, rel);
    } else {
        let q = joined(root, rel);
        parts_of_joined(root, rel);
        body_without_head(rel);
        let n = parts(root).len() as int;
        let h = head(rel).len() as int;
        let k = choose|k: int|
            0 <= k < parts(rel).len() && !(#[trigger] parts(rel)[k] is Name
                || parts(rel)[k] is Current);
        assert(parts(rel)[k] == body(rel)[k - h]);
        assert(parts(q)[n + k - h] == body(rel)[k - h]);
    }
}

} // verus!
