//! Ignore matching: which paths are never synced.
//!
//! Two layers, merged into one gitignore-style matcher:
//!   1. [`IGNORE_DIRS`], the built-in defaults (`.codrop`, `node_modules`, `.git`, ...). These are
//!      always applied; `.codrop` in particular *must* stay ignored or the daemon would echo its
//!      own status writes forever.
//!   2. `<root>/.codropignore`, an optional, user-editable file at the synced root using
//!      gitignore syntax (`*.log`, `.venv/`, `__pycache__`, `!keep.log`, ...). Because it is a
//!      normal tree file, it syncs to peers like `.gitignore` does.
//!
//! Matching is sender-side: the daemon consults it before scanning or pushing, so ignored paths
//! never leave a machine. It does not filter *incoming* pushes.

use crate::linefile::{
    append_line, appended, appending_adds_one_line, read_lines, text_lines, trimmed_ends,
    utf8_text,
};
use crate::paths::{
    beginning_is, beyond, body, components, inside, inside_is_by_segments, is_blank, is_inside,
    is_safe, join, joined,
    one_segment_is, parts, parts_of, safe_path_stays_inside, segment, segments_add_up,
    strip_prefix, strip_undoes_join, stripped, stripping_gives_the_rest, tail_len_unique,
    trim_left, trim_right, Component, Part,
};
use crate::text::{
    chars_of, find_is, find_unique, lines, replace, replaced, same, split_lines, text_of, texts,
    trim, trim_slashes, trimmed, without_slashes,
};
use ignore::gitignore::{Gitignore, GitignoreBuilder};
use vstd::prelude::*;
use vstd::utf8::{decode_utf8, valid_utf8};

verus! {

// ---- the outside matcher -------------------------------------------------------------------
/// Declares `ignore::gitignore::GitignoreBuilder`, to which gitignore lines are added.
#[verifier::external_type_specification]
#[verifier::external_body]
pub struct ExGitignoreBuilder(GitignoreBuilder);

/// Declares `ignore::gitignore::Gitignore`, a compiled set of gitignore lines.
#[verifier::external_type_specification]
#[verifier::external_body]
pub struct ExGitignore(Gitignore);

/// The lines that were added to a builder, in order, those that do not parse included: they leave
/// no trace.
pub uninterp spec fn builder_lines(b: GitignoreBuilder) -> Seq<Seq<char>>;

/// The directory that a builder was made for.
pub uninterp spec fn builder_root(b: GitignoreBuilder) -> Seq<char>;

/// The lines that a matcher was built from.
pub uninterp spec fn matcher_lines(g: Gitignore) -> Seq<Seq<char>>;

/// The directory that a matcher was built for.
pub uninterp spec fn matcher_root(g: Gitignore) -> Seq<char>;

/// Whether `GitignoreBuilder::add_line`, of a builder with the options that it starts with, can
/// parse the line.
pub uninterp spec fn line_parses(line: Seq<char>) -> bool;

/// Whether `GitignoreBuilder::build` can compile these lines into one set of globs.
pub uninterp spec fn globs_compile(lines: Seq<Seq<char>>) -> bool;

/// Whether `Gitignore::matched_path_or_any_parents`, of a matcher built for `root` from `lines`,
/// says that the path is to be ignored.
pub uninterp spec fn globs_ignore(
    root: Seq<char>,
    lines: Seq<Seq<char>>,
    path: Seq<char>,
    is_dir: bool,
) -> bool;

/// A path without one leading `./`.
pub open spec fn undotted(p: Seq<char>) -> Seq<char> {
    if p.len() >= 2 && p[0] == '.' && p[1] == '/' {
        p.skip(2)
    } else {
        p
    }
}

/// The path that a matcher for `root` looks at when it is asked about `path`.
pub open spec fn looked_at(root: Seq<char>, path: Seq<char>) -> Seq<char> {
    let r = undotted(root);
    let p = undotted(path);
    if parts(r) != seq![Part::Current] && p.contains('/') && r.is_prefix_of(p) {
        let rest = p.skip(r.len() as int);
        if rest.len() > 0 && rest[0] == '/' {
            rest.skip(1)
        } else {
            rest
        }
    } else {
        p
    }
}

/// The path is one that a matcher for `root` can be asked about: nothing absolute is left of it.
pub open spec fn is_covered(root: Seq<char>, path: Seq<char>) -> bool {
    looked_at(root, path).len() == 0 || looked_at(root, path)[0] != '/'
}

/// Trusted: `GitignoreBuilder::new` starts a builder for `root` with no lines.
#[verifier::external_body]
fn new_builder(root: &str) -> (r: GitignoreBuilder)
    ensures
        builder_root(r) == root@,
        builder_lines(r) == Seq::<Seq<char>>::empty(),
{
    GitignoreBuilder::new(root)
}

/// Trusted: `GitignoreBuilder::add_line` takes one more line in and says whether it parsed, which
/// depends on the line alone: no option of the builder is ever set here.
#[verifier::external_body]
fn add_line(builder: &mut GitignoreBuilder, line: &str) -> (r: bool)
    ensures
        r == line_parses(line@),
        builder_root(*final(builder)) == builder_root(*old(builder)),
        builder_lines(*final(builder)) == builder_lines(*old(builder)).push(line@),
{
    builder.add_line(None, line).is_ok()
}

/// Trusted: `GitignoreBuilder::build` compiles the lines added so far, or reports that they do
/// not compile.
#[verifier::external_body]
fn build(builder: &GitignoreBuilder) -> (r: Option<Gitignore>)
    ensures
        r is Some <==> globs_compile(builder_lines(*builder)),
        r matches Some(g) ==> matcher_root(g) == builder_root(*builder) && matcher_lines(g)
            == builder_lines(*builder),
{
    builder.build().ok()
}

/// Trusted: `Gitignore::empty` is the matcher that has no lines.
#[verifier::external_body]
fn empty_matcher() -> (r: Gitignore)
    ensures
        matcher_root(r) == Seq::<char>::empty(),
        matcher_lines(r) == Seq::<Seq<char>>::empty(),
{
    Gitignore::empty()
}

/// Trusted: `Gitignore::matched_path_or_any_parents` looks the path up, then its parents, and
/// takes the first answer. It panics on a path of which something absolute is left once the
/// matcher's directory is stripped, unless the matcher has no globs; with no lines it ignores
/// nothing.
#[verifier::external_body]
fn matched(matcher: &Gitignore, path: &str, is_dir: bool) -> (r: bool)
    requires
        matcher_lines(*matcher).len() > 0 ==> is_covered(matcher_root(*matcher), path@),
    ensures
        r == globs_ignore(matcher_root(*matcher), matcher_lines(*matcher), path@, is_dir),
        matcher_lines(*matcher).len() == 0 ==> !r,
{
    matcher.matched_path_or_any_parents(path, is_dir).is_ignore()
}

// ---- the built-in names --------------------------------------------------------------------
/// Directory names that are never synced: specific to a system or a toolchain, or this
/// program's own state. Defined once, so that every entry point shares one ignore policy.
pub const IGNORE_DIRS: [&'static str; 7] = [
    ".codrop",
    "node_modules",
    ".git",
    "target",
    "dist",
    "build",
    ".next",
];

/// The built-in names.
pub open spec fn built_in() -> Seq<Seq<char>> {
    Seq::new(IGNORE_DIRS@.len(), |i: int| IGNORE_DIRS@[i]@)
}

/// Whether a file name is one of the built-in names.
pub fn is_built_in(name: &str) -> (r: bool)
    ensures
        r == built_in().contains(name@),
{
    let dirs = IGNORE_DIRS;
    let mut i: usize = 0;
    while i < dirs.len()
        invariant
            i <= dirs@.len(),
            dirs@.len() == built_in().len(),
            forall|j: int| 0 <= j < dirs@.len() ==> (#[trigger] dirs@[j])@ == built_in()[j],
            forall|j: int| 0 <= j < i ==> #[trigger] built_in()[j] != name@,
        decreases dirs@.len() - i,
    {
        if same(dirs[i], name) {
            proof {
                assert(built_in()[i as int] == name@);
            }
            return true;
        }
        i += 1;
    }
    false
}

/// A component of the path is one of the built-in names.
pub open spec fn in_built_in(path: Seq<char>) -> bool {
    exists|i: int|
        0 <= i < parts(path).len() && (#[trigger] parts(path)[i] matches Part::Name(n)
            && built_in().contains(n))
}

/// Whether a component of the path is one of the built-in names.
pub fn is_ignored(path: &str) -> (r: bool)
    ensures
        r == in_built_in(path@),
{
    let v = components(path);
    let mut i: usize = 0;
    while i < v.len()
        invariant
            i <= v@.len(),
            parts_of(v@) == parts(path@),
            forall|j: int|
                0 <= j < i ==> !(#[trigger] parts(path@)[j] matches Part::Name(n)
                    && built_in().contains(n)),
        decreases v@.len() - i,
    {
        proof {
            assert(parts_of(v@)[i as int] == v@[i as int]@);
        }
        if let Component::Name(n) = &v[i] {
            if is_built_in(n.as_str()) {
                proof {
                    assert(parts(path@)[i as int] == Part::Name(n@));
                }
                return true;
            }
        }
        i += 1;
    }
    false
}

// ---- the ignore file -----------------------------------------------------------------------
/// Name of the user-editable ignore file at the synced root.
pub const IGNORE_FILE: &'static str = ".codropignore";

/// A line without byte order marks at its beginning.
pub open spec fn unmarked(s: Seq<char>) -> Seq<char>
    decreases s.len(),
{
    if s.len() > 0 && s[0] == '\u{feff}' {
        unmarked(s.skip(1))
    } else {
        s
    }
}

fn unmark(s: &str) -> (r: String)
    ensures
        r@ == unmarked(s@),
{
    let v = chars_of(s);
    let mut i: usize = 0;
    proof {
        assert(s@.skip(0) =~= s@);
    }
    while i < v.len() && v[i] == '\u{feff}'
        invariant
            i <= v@.len(),
            v@ == s@,
            unmarked(s@) == unmarked(s@.skip(i as int)),
        decreases v@.len() - i,
    {
        proof {
            assert(s@.skip(i as int).skip(1) =~= s@.skip(i + 1));
        }
        i += 1;
    }
    proof {
        assert(s@.subrange(i as int, v@.len() as int) =~= s@.skip(i as int));
    }
    text_of(&v, i, v.len())
}

/// The lines of an ignore file, the first without byte order marks.
pub open spec fn file_lines(text: Seq<char>) -> Seq<Seq<char>> {
    let ls = lines(text);
    if ls.len() == 0 {
        ls
    } else {
        ls.update(0, unmarked(ls[0]))
    }
}

/// Every line parses.
pub open spec fn all_parse(ls: Seq<Seq<char>>) -> bool {
    forall|i: int| 0 <= i < ls.len() ==> line_parses(#[trigger] ls[i])
}

/// The ignore file is in order: it is text, each line parses, and they compile together with the
/// built-in names.
pub open spec fn is_well_formed(file: Seq<u8>) -> bool {
    let ls = file_lines(decode_utf8(file));
    valid_utf8(file) && all_parse(ls) && globs_compile(built_in() + ls)
}

/// Everything that a matcher is built from: the built-in names, then the lines of the file, if
/// there is one and it is in order.
pub open spec fn policy(file: Option<Seq<u8>>) -> Seq<Seq<char>> {
    match file {
        Some(b) if is_well_formed(b) => built_in() + file_lines(decode_utf8(b)),
        _ => built_in(),
    }
}

/// What a pattern for the ignore file is rewritten to: a path under the root becomes relative to
/// it, anything else stays. What is given relative to the root may be a pattern: a slash at its
/// end and its backslashes mean something there, and stay.
pub open spec fn normalized(root: Seq<char>, arg: Seq<char>) -> Seq<char> {
    let abs = joined(root, arg);
    if inside(root, abs) {
        let rel = stripped(abs, root)->Some_0;
        if rel.len() == 0 || rel == seq!['.'] {
            arg
        } else if arg[0] == '/' {
            replaced(rel, '\\', '/')
        } else if arg.last() == '/' {
            rel.push('/')
        } else {
            rel
        }
    } else {
        arg
    }
}

/// Turn a user-supplied ignore argument into the pattern to store. If it names a path under
/// `root` (a tab-completed absolute path, or one like `./x.log`), it is rewritten to the
/// root-relative form that the ignore file expects; otherwise it is kept verbatim (globs like
/// `*.log`, bare names like `__pycache__`, directories like `.venv/`, negations like `!keep.log`
/// and paths that lead out of the root pass through unchanged).
pub fn normalize_pattern(root: &str, arg: &str) -> (r: String)
    ensures
        r@ == normalized(root@, arg@),
        !inside(root@, joined(root@, arg@)) ==> r@ == arg@,
{
    let abs = join(root, arg);
    if !is_inside(root, abs.as_str()) {
        return arg.to_owned();
    }
    if let Some(mut rel) = strip_prefix(abs.as_str(), root) {
        proof {
            reveal_strlit(".");
            assert("."@ =~= seq!['.']);
        }
        let v = chars_of(arg);
        if v.len() > 0 && !rel.as_str().is_empty() && !same(rel.as_str(), ".") {
            if v[0] == '/' {
                return replace(rel.as_str(), '\\', '/');
            }
            if v[v.len() - 1] == '/' {
                rel.push('/');
            }
            return rel;
        }
        proof {
            if arg@.len() == 0 {
                strip_of_nothing(root@);
            }
        }
    }
    arg.to_owned()
}

/// Nothing put behind a directory leaves nothing.
proof fn strip_of_nothing(root: Seq<char>)
    ensures
        stripped(joined(root, Seq::empty()), root) matches Some(rel) && rel.len() == 0,
{
    if root.len() > 0 {
        strip_undoes_join(root, Seq::empty());
    } else {
        assert(joined(root, Seq::empty()) =~= root);
    }
}

/// A line of the file is the entry, white space at the ends aside.
pub open spec fn is_listed(file: Seq<u8>, entry: Seq<char>) -> bool {
    exists|i: int|
        0 <= i < text_lines(file).len() && trimmed(#[trigger] text_lines(file)[i]) == entry
}

/// The ignore file with `pattern` appended; `None` if a line for it already exists. The file
/// stays clean: one entry per line, trailing newline. What is in it stays, whatever its bytes are.
pub fn append_ignore(existing: &[u8], pattern: &str) -> (r: Option<Vec<u8>>)
    ensures
        match r {
            Some(new) => {
                &&& !is_listed(existing@, trimmed(pattern@))
                &&& new@ == appended(existing@, trimmed(pattern@))
                &&& existing@.is_prefix_of(new@)
            },
            None => is_listed(existing@, trimmed(pattern@)),
        },
{
    let needle = trim(pattern);
    let ls = read_lines(existing);
    let mut i: usize = 0;
    while i < ls.len()
        invariant
            i <= ls@.len(),
            texts(ls@) == text_lines(existing@),
            needle@ == trimmed(pattern@),
            forall|j: int| 0 <= j < i ==> trimmed(#[trigger] text_lines(existing@)[j]) != needle@,
        decreases ls@.len() - i,
    {
        let line = trim(ls[i].as_str());
        proof {
            assert(texts(ls@)[i as int] == ls@[i as int]@);
        }
        if same(line.as_str(), needle.as_str()) {
            proof {
                assert(trimmed(text_lines(existing@)[i as int]) == needle@);
            }
            return None;
        }
        i += 1;
    }
    Some(append_line(existing, needle.as_str()))
}

// ---- the matcher ---------------------------------------------------------------------------
/// Below the matcher's root, the path has a `.codrop` component.
pub open spec fn in_state_dir(root: Seq<char>, path: Seq<char>) -> bool {
    exists|i: int|
        0 <= i < parts(looked_at(root, path)).len() && #[trigger] parts(looked_at(root, path))[i]
            == Part::Name(".codrop"@)
}

/// A compiled ignore policy for one synced root: built-in defaults and the ignore file.
#[derive(Debug)]
pub struct Matcher {
    inner: Gitignore,
    root: String,
    blank: bool,
}

impl Matcher {
    #[verifier::type_invariant]
    spec fn described(self) -> bool {
        &&& self.blank == (matcher_lines(self.inner).len() == 0)
        &&& !self.blank ==> self.root@ == matcher_root(self.inner)
    }

    /// The directory that its paths are taken relative to.
    pub closed spec fn root(self) -> Seq<char> {
        self.root@
    }

    /// The lines that it was built from.
    pub closed spec fn lines(self) -> Seq<Seq<char>> {
        matcher_lines(self.inner)
    }

    /// Build the matcher for `root` (should be canonical, the same form paths are queried in)
    /// from the bytes of its ignore file, if there is one. Seeds the built-in names, then layers
    /// the file on top so that user patterns (including `!` un-ignores) can override the
    /// defaults. Never fails: a malformed file leaves just the built-in names.
    pub fn load(root: &str, ignore_file: Option<&[u8]>) -> (r: Matcher)
        ensures
            r.root() == root@,
            ({
                let all = policy(
                    match ignore_file {
                        Some(b) => Some(b@),
                        None => None,
                    },
                );
                r.lines() == if globs_compile(all) {
                    all
                } else {
                    Seq::empty()
                }
            }),
    {
        if let Some(bytes) = ignore_file {
            if let Some(text) = utf8_text(bytes) {
                let mut builder = built_in_builder(root);
                if add_file(&mut builder, text.as_str()) {
                    if let Some(inner) = build(&builder) {
                        return Matcher { inner, root: root.to_owned(), blank: false };
                    }
                }
            }
        }
        match build(&built_in_builder(root)) {
            Some(inner) => Matcher { inner, root: root.to_owned(), blank: false },
            None => Matcher { inner: empty_matcher(), root: root.to_owned(), blank: true },
        }
    }

    /// Whether the path is one that the matcher can be asked about.
    pub fn covers(&self, abs: &str) -> (r: bool)
        ensures
            r == (self.lines().len() > 0 ==> is_covered(self.root(), abs@)),
    {
        proof {
            use_type_invariant(self);
        }
        if self.blank {
            return true;
        }
        let rest = look_at(self.root.as_str(), abs);
        let v = chars_of(rest.as_str());
        v.len() == 0 || v[0] != '/'
    }

    /// True if `abs` (an absolute path under the matcher's root) is ignored. Checks the path and
    /// all its parents, so ignoring a directory ignores everything beneath it. `is_dir` selects
    /// dir-only patterns (a trailing-slash pattern matches directories only). A `.codrop`
    /// directory is ignored whatever the patterns say, or the daemon would echo its own writes.
    pub fn is_ignored(&self, abs: &str, is_dir: bool) -> (r: bool)
        requires
            self.lines().len() > 0 ==> is_covered(self.root(), abs@),
        ensures
            in_state_dir(self.root(), abs@) ==> r,
            !in_state_dir(self.root(), abs@) && self.lines().len() > 0 ==> r == globs_ignore(
                self.root(),
                self.lines(),
                abs@,
                is_dir,
            ),
            !in_state_dir(self.root(), abs@) && self.lines().len() == 0 ==> !r,
    {
        proof {
            use_type_invariant(self);
        }
        let rest = look_at(self.root.as_str(), abs);
        let v = components(rest.as_str());
        let mut i: usize = 0;
        while i < v.len()
            invariant
                i <= v@.len(),
                rest@ == looked_at(self.root(), abs@),
                parts_of(v@) == parts(rest@),
                forall|j: int|
                    0 <= j < i ==> #[trigger] parts(rest@)[j] != Part::Name(".codrop"@),
            decreases v@.len() - i,
        {
            proof {
                assert(parts_of(v@)[i as int] == v@[i as int]@);
            }
            if let Component::Name(n) = &v[i] {
                if same(n.as_str(), ".codrop") {
                    proof {
                        assert(parts(rest@)[i as int] == Part::Name(".codrop"@));
                    }
                    return true;
                }
            }
            i += 1;
        }
        matched(&self.inner, abs, is_dir)
    }
}

fn undot(p: &str) -> (r: String)
    ensures
        r@ == undotted(p@),
{
    let v = chars_of(p);
    if v.len() >= 2 && v[0] == '.' && v[1] == '/' {
        let r = text_of(&v, 2, v.len());
        proof {
            assert(r@ =~= p@.skip(2));
        }
        return r;
    }
    p.to_owned()
}

/// The path is just `.`.
fn is_current(p: &str) -> (r: bool)
    ensures
        r == (parts(p@) == seq![Part::Current]),
{
    let v = components(p);
    if v.len() != 1 {
        proof {
            assert(parts_of(v@).len() != 1);
        }
        return false;
    }
    proof {
        assert(parts_of(v@)[0] == v@[0]@);
    }
    match &v[0] {
        Component::Current => {
            proof {
                assert(parts(p@) =~= seq![Part::Current]);
            }
            true
        },
        _ => {
            proof {
                assert(seq![Part::Current][0] == Part::Current);
            }
            false
        },
    }
}

/// The path that a matcher for `root` looks at when it is asked about `path`.
fn look_at(root: &str, path: &str) -> (r: String)
    ensures
        r@ == looked_at(root@, path@),
{
    let r = undot(root);
    let p = undot(path);
    let rv = chars_of(r.as_str());
    let pv = chars_of(p.as_str());
    if is_current(r.as_str()) || rv.len() > pv.len() {
        proof {
            if rv@.is_prefix_of(pv@) {
                assert(rv@.len() <= pv@.len());
            }
        }
        return p;
    }
    let mut slash = false;
    let mut prefix = true;
    let mut i: usize = 0;
    while i < pv.len()
        invariant
            i <= pv@.len(),
            rv@.len() <= pv@.len(),
            slash == (exists|j: int| 0 <= j < i && #[trigger] pv@[j] == '/'),
            prefix == (forall|j: int| 0 <= j < i && j < rv@.len() ==> rv@[j] == #[trigger] pv@[j]),
        decreases pv@.len() - i,
    {
        if pv[i] == '/' {
            slash = true;
        }
        if i < rv.len() && rv[i] != pv[i] {
            prefix = false;
        }
        i += 1;
    }
    proof {
        assert(slash == pv@.contains('/'));
        if prefix {
            assert(rv@ =~= pv@.subrange(0, rv@.len() as int));
        } else {
            let j = choose|j: int| 0 <= j < rv@.len() && rv@[j] != #[trigger] pv@[j];
            if rv@.is_prefix_of(pv@) {
                assert(rv@[j] == pv@.subrange(0, rv@.len() as int)[j]);
            }
        }
    }
    if !slash || !prefix {
        return p;
    }
    let n = rv.len();
    let rest = text_of(&pv, n, pv.len());
    proof {
        assert(rest@ =~= p@.skip(n as int));
    }
    if n < pv.len() && pv[n] == '/' {
        let r = text_of(&pv, n + 1, pv.len());
        proof {
            assert(r@ =~= rest@.skip(1));
        }
        return r;
    }
    rest
}

/// A builder with the built-in names. There is no slash behind them: they match a file or a
/// directory anywhere, and a directory takes its whole subtree with it.
fn built_in_builder(root: &str) -> (builder: GitignoreBuilder)
    ensures
        builder_root(builder) == root@,
        builder_lines(builder) == built_in(),
{
    let mut builder = new_builder(root);
    let dirs = IGNORE_DIRS;
    let mut i: usize = 0;
    proof {
        assert(built_in().take(0) =~= Seq::<Seq<char>>::empty());
    }
    while i < dirs.len()
        invariant
            i <= dirs@.len(),
            dirs@.len() == built_in().len(),
            forall|j: int| 0 <= j < dirs@.len() ==> (#[trigger] dirs@[j])@ == built_in()[j],
            builder_root(builder) == root@,
            builder_lines(builder) == built_in().take(i as int),
        decreases dirs@.len() - i,
    {
        let _ = add_line(&mut builder, dirs[i]);
        proof {
            assert(built_in().take(i as int).push(built_in()[i as int]) =~= built_in().take(i + 1));
        }
        i += 1;
    }
    proof {
        assert(built_in().take(dirs@.len() as int) =~= built_in());
    }
    builder
}

/// Adds the lines of an ignore file, and says whether each of them parsed.
fn add_file(builder: &mut GitignoreBuilder, text: &str) -> (r: bool)
    ensures
        r == all_parse(file_lines(text@)),
        builder_root(*final(builder)) == builder_root(*old(builder)),
        builder_lines(*final(builder)) == builder_lines(*old(builder)) + file_lines(text@),
{
    let ls = split_lines(text);
    let ghost before = builder_lines(*builder);
    let ghost all = file_lines(text@);
    let mut good = true;
    let mut i: usize = 0;
    proof {
        assert(before + all.take(0) =~= before);
    }
    while i < ls.len()
        invariant
            i <= ls@.len(),
            texts(ls@) == lines(text@),
            all == file_lines(text@),
            all.len() == ls@.len(),
            builder_root(*builder) == builder_root(*old(builder)),
            builder_lines(*builder) == before + all.take(i as int),
            good == (forall|j: int| 0 <= j < i ==> line_parses(#[trigger] all[j])),
        decreases ls@.len() - i,
    {
        proof {
            assert(texts(ls@)[i as int] == ls@[i as int]@);
            assert((before + all.take(i as int)).push(all[i as int]) =~= before + all.take(i + 1));
        }
        let parsed = if i == 0 {
            let first = unmark(ls[0].as_str());
            add_line(builder, first.as_str())
        } else {
            add_line(builder, ls[i].as_str())
        };
        proof {
            assert(parsed == line_parses(all[i as int]));
        }
        good = good && parsed;
        i += 1;
    }
    proof {
        assert(all.take(ls@.len() as int) =~= all);
    }
    good
}

// ---- git -----------------------------------------------------------------------------------
/// A line of the file is the entry, white space at the ends and trailing slashes aside.
pub open spec fn git_lists(file: Seq<u8>, entry: Seq<char>) -> bool {
    exists|i: int|
        0 <= i < text_lines(file).len() && without_slashes(
            trimmed(#[trigger] text_lines(file)[i]),
        ) == without_slashes(entry)
}

/// The `.gitignore` entry for `state_dir`, where it lives inside `root`.
pub open spec fn git_entry(root: Seq<char>, state_dir: Seq<char>) -> Option<Seq<char>> {
    match stripped(state_dir, root) {
        Some(rel) => Some(replaced(rel, '\\', '/').push('/')),
        None => None,
    }
}

/// The new content of `<root>/.gitignore` that makes git ignore `state_dir` when it lives inside
/// the synced `root`, by an entry such as `.codrop/`; `None` where there is nothing to write. What
/// is in the file stays, whatever its bytes are.
pub fn ignore_state_in_git(root: &str, state_dir: &str, existing: &[u8]) -> (r: Option<Vec<u8>>)
    ensures
        match git_entry(root@, state_dir@) {
            None => r is None,
            Some(entry) => match r {
                Some(new) => {
                    &&& !git_lists(existing@, entry)
                    &&& new@ == appended(existing@, entry)
                    &&& existing@.is_prefix_of(new@)
                },
                None => git_lists(existing@, entry),
            },
        },
{
    match strip_prefix(state_dir, root) {
        Some(rel) => {
            let mut entry = replace(rel.as_str(), '\\', '/');
            entry.push('/');
            ensure_gitignore(existing, entry.as_str())
        },
        None => None,
    }
}

/// The new content of a `.gitignore` that is to contain `entry`; `None` if it already does, with
/// or without a trailing slash. Appends with clean newlines, and never drops what was there.
pub fn ensure_gitignore(existing: &[u8], entry: &str) -> (r: Option<Vec<u8>>)
    ensures
        match r {
            Some(new) => {
                &&& !git_lists(existing@, entry@)
                &&& new@ == appended(existing@, entry@)
                &&& existing@.is_prefix_of(new@)
            },
            None => git_lists(existing@, entry@),
        },
{
    let needle = trim_slashes(entry);
    let ls = read_lines(existing);
    let mut i: usize = 0;
    while i < ls.len()
        invariant
            i <= ls@.len(),
            texts(ls@) == text_lines(existing@),
            needle@ == without_slashes(entry@),
            forall|j: int|
                0 <= j < i ==> without_slashes(trimmed(#[trigger] text_lines(existing@)[j]))
                    != needle@,
        decreases ls@.len() - i,
    {
        let line = trim(ls[i].as_str());
        let line = trim_slashes(line.as_str());
        proof {
            assert(texts(ls@)[i as int] == ls@[i as int]@);
        }
        if same(line.as_str(), needle.as_str()) {
            proof {
                assert(without_slashes(trimmed(text_lines(existing@)[i as int])) == needle@);
            }
            return None;
        }
        i += 1;
    }
    Some(append_line(existing, entry))
}

// ---- laws ----------------------------------------------------------------------------------
/// A pattern that was appended is listed, so that appending it again writes nothing; what was
/// listed before still is, and every byte of the file stays.
pub proof fn appending_a_pattern_is_idempotent(
    existing: Seq<u8>,
    pattern: Seq<char>,
    other: Seq<char>,
)
    requires
        !trimmed(pattern).contains('\n'),
    ensures
        is_listed(appended(existing, trimmed(pattern)), trimmed(pattern)),
        is_listed(existing, other) ==> is_listed(appended(existing, trimmed(pattern)), other),
        existing.is_prefix_of(appended(existing, trimmed(pattern))),
{
    let entry = trimmed(pattern);
    let new = text_lines(appended(existing, entry));
    appending_adds_one_line(existing, entry);
    trimmed_ends(pattern);
    assert(trimmed(new[new.len() - 1]) == entry);
    if is_listed(existing, other) {
        let i = choose|i: int|
            0 <= i < text_lines(existing).len() && trimmed(#[trigger] text_lines(existing)[i])
                == other;
        assert(trimmed(new[i]) == other);
    }
}

/// An entry that was put into a `.gitignore` is found there, so that it is put in once; what was
/// listed before still is, and every byte of the file stays. The entry has no white space at its
/// ends and no newline in it.
pub proof fn git_entry_is_put_in_once(existing: Seq<u8>, entry: Seq<char>, other: Seq<char>)
    requires
        !entry.contains('\n'),
        trimmed(entry) == entry,
    ensures
        git_lists(appended(existing, entry), entry),
        git_lists(existing, other) ==> git_lists(appended(existing, entry), other),
        existing.is_prefix_of(appended(existing, entry)),
{
    let new = text_lines(appended(existing, entry));
    appending_adds_one_line(existing, entry);
    assert(without_slashes(trimmed(new[new.len() - 1])) == without_slashes(entry));
    if git_lists(existing, other) {
        let i = choose|i: int|
            0 <= i < text_lines(existing).len() && without_slashes(
                trimmed(#[trigger] text_lines(existing)[i]),
            ) == without_slashes(other);
        assert(without_slashes(trimmed(new[i])) == without_slashes(other));
    }
}

/// A path that leads out of the root is stored as it is.
pub proof fn paths_elsewhere_stay(root: Seq<char>, arg: Seq<char>)
    requires
        !inside(root, joined(root, arg)),
    ensures
        normalized(root, arg) == arg,
{
}

/// A pattern with no slash in it, but for one at its end, is stored as it is.
pub proof fn bare_patterns_stay(root: Seq<char>, arg: Seq<char>)
    requires
        root.len() > 0,
        arg.len() > 0,
        arg[0] != '/',
        forall|i: int| 0 <= i < arg.len() - 1 ==> arg[i] != '/',
    ensures
        normalized(root, arg) == arg,
{
    strip_undoes_join(root, arg);
    let name = if arg.last() == '/' {
        arg.drop_last()
    } else {
        arg
    };
    find_unique(arg, '/', name.len() as int);
    assert(segment(arg) =~= name);
    assert(beyond(arg) =~= Seq::<char>::empty());
    if !is_blank(name) {
        assert(arg.skip(0) =~= arg);
        assert(name.skip(0) =~= name);
        tail_len_unique(name, name.len() as int);
        if arg.last() == '/' {
            tail_len_unique(arg, 0);
            assert(arg.skip(arg.len() as int) =~= Seq::<char>::empty());
            assert(arg.take(arg.len() - 1) =~= name);
            assert(name.push('/') =~= arg);
        }
        assert(trim_right(name, 0) == name) by {
            assert(name.skip(0) =~= name);
        }
        assert(trim_right(trim_left(arg), 0) == name);
    } else {
        assert(trim_left(Seq::<char>::empty()) == Seq::<char>::empty());
        assert(trim_left(arg) == Seq::<char>::empty());
        assert(trim_right(Seq::<char>::empty(), 0) == Seq::<char>::empty());
    }
}

/// A path given relative to the root is stored without the blank segments at its ends, with a
/// slash at its end if there was one.
pub proof fn relative_path_loses_its_dots(root: Seq<char>, arg: Seq<char>)
    requires
        root.len() > 0,
        is_safe(arg),
        trim_right(trim_left(arg), 0).len() > 0,
        trim_right(trim_left(arg), 0) != seq!['.'],
    ensures
        normalized(root, arg) == if arg.last() == '/' {
            trim_right(trim_left(arg), 0).push('/')
        } else {
            trim_right(trim_left(arg), 0)
        },
{
    assert(arg[0] != '/') by {
        if arg[0] == '/' {
            assert(parts(arg)[0] == Part::Root);
        }
    }
    safe_path_stays_inside(root, arg);
    strip_undoes_join(root, arg);
}

/// An absolute path under the root is stored relative to it.
pub proof fn path_under_root_becomes_relative(root: Seq<char>, rel: Seq<char>)
    requires
        root.len() > 0,
        root[0] == '/',
        is_safe(rel),
        trim_right(trim_left(rel), 0) == rel,
        rel != seq!['.'],
    ensures
        normalized(root, joined(root, rel)) == replaced(rel, '\\', '/'),
{
    assert(rel[0] != '/') by {
        if rel[0] == '/' {
            assert(parts(rel)[0] == Part::Root);
        }
    }
    safe_path_stays_inside(root, rel);
    strip_undoes_join(root, rel);
    assert(joined(root, rel)[0] == '/');
}

/// The lines of an ignore file reach the matcher as they are, one for one, but for byte order
/// marks at the beginning of the first.
pub proof fn lines_reach_the_matcher_unchanged(text: Seq<char>, i: int)
    requires
        0 <= i < lines(text).len(),
    ensures
        file_lines(text).len() == lines(text).len(),
        i > 0 ==> file_lines(text)[i] == lines(text)[i],
        lines(text)[i].len() == 0 || lines(text)[i][0] != '\u{feff}' ==> file_lines(text)[i]
            == lines(text)[i],
{
}

/// Byte order marks at the beginning go, and nothing else does.
pub proof fn marks_at_the_beginning_go(n: nat, s: Seq<char>)
    requires
        s.len() == 0 || s[0] != '\u{feff}',
    ensures
        unmarked(Seq::new(n, |i: int| '\u{feff}') + s) == s,
    decreases n,
{
    let t = Seq::new(n, |i: int| '\u{feff}') + s;
    if n > 0 {
        marks_at_the_beginning_go((n - 1) as nat, s);
        assert(t[0] == '\u{feff}');
        assert(t.skip(1) =~= Seq::new((n - 1) as nat, |i: int| '\u{feff}') + s);
    } else {
        assert(t =~= s);
    }
}

/// The names that are never synced.
pub proof fn built_in_names_are()
    ensures
        built_in() == seq![
            ".codrop"@,
            "node_modules"@,
            ".git"@,
            "target"@,
            "dist"@,
            "build"@,
            ".next"@,
        ],
{
    assert(built_in() =~= seq![
        ".codrop"@,
        "node_modules"@,
        ".git"@,
        "target"@,
        "dist"@,
        "build"@,
        ".next"@,
    ]);
}

/// A matcher is built from the seven built-in names and behind them, if there is an ignore file
/// that is text, parses line by line and compiles, its lines; otherwise from the names alone.
pub proof fn file_is_layered_on_the_names(file: Seq<u8>, i: int)
    ensures
        policy(None) == built_in(),
        ({
            let ls = lines(decode_utf8(file));
            let good = valid_utf8(file) && (forall|j: int|
                0 <= j < ls.len() ==> line_parses(#[trigger] file_lines(decode_utf8(file))[j]))
                && globs_compile(built_in() + file_lines(decode_utf8(file)));
            &&& !good ==> policy(Some(file)) == built_in()
            &&& good ==> policy(Some(file)).len() == 7 + ls.len() && (0 <= i < 7
                ==> policy(Some(file))[i] == built_in()[i])
            &&& good && 0 <= i < ls.len() && (i > 0 || ls[i].len() == 0 || ls[i][0] != '\u{feff}')
                ==> policy(Some(file))[7 + i] == ls[i]
        }),
{
    built_in_names_are();
    let ls = file_lines(decode_utf8(file));
    assert(ls.len() == lines(decode_utf8(file)).len());
    if forall|j: int| 0 <= j < ls.len() ==> line_parses(#[trigger] ls[j]) {
        assert(all_parse(ls));
    } else {
        assert(!all_parse(ls));
    }
}

proof fn part_is_there(a: Seq<char>, name: Seq<char>, b: Seq<char>)
    requires
        name.len() > 0,
        !name.contains('/'),
        name != seq!['.'],
        name != seq!['.', '.'],
    ensures
        parts(name) == seq![Part::Name(name)],
        parts(a + seq!['/'] + name).last() == Part::Name(name),
        parts(a + seq!['/'] + name).len() > 0,
        exists|i: int|
            0 <= i < parts(a + seq!['/'] + name + seq!['/'] + b).len() && #[trigger] parts(
                a + seq!['/'] + name + seq!['/'] + b,
            )[i] == Part::Name(name),
        exists|i: int|
            0 <= i < parts(name + seq!['/'] + b).len() && #[trigger] parts(
                name + seq!['/'] + b,
            )[i] == Part::Name(name),
{
    one_segment_is(name);
    segments_add_up(a, name);
    let p = a + seq!['/'] + name;
    segments_add_up(p, b);
    segments_add_up(name, b);
    let q = p + seq!['/'] + b;
    let r = name + seq!['/'] + b;
    beginning_is(name);
    beginning_is(p);
    beginning_is(q);
    beginning_is(r);
    if name[0] == '/' {
        assert(name.contains(name[0]));
    }
    if name[0] == '.' && name.len() == 1 {
        assert(name =~= seq!['.']);
    }
    if name.len() > 1 && name[1] == '/' {
        assert(name.contains(name[1]));
    }
    let k = body(p).len() - 1;
    assert(body(p)[k] == Part::Name(name));
    assert(body(q)[k] == Part::Name(name));
    assert(body(r)[0] == Part::Name(name));
    let h = parts(q).len() - body(q).len();
    assert(parts(q)[k + h] == Part::Name(name));
    let g = parts(r).len() - body(r).len();
    assert(parts(r)[g] == Part::Name(name));
    let f = parts(p).len() - body(p).len();
    assert(parts(p)[k + f] == Part::Name(name));
}

/// A path is passed over by the stand-alone watcher exactly if one of its components is a built-in
/// name: wherever it stands, and for everything beneath it.
pub proof fn built_in_names_take_their_subtree(a: Seq<char>, name: Seq<char>, b: Seq<char>)
    requires
        name.len() > 0,
        !name.contains('/'),
        name != seq!['.'],
        name != seq!['.', '.'],
    ensures
        built_in().contains(name) ==> in_built_in(name) && in_built_in(a + seq!['/'] + name)
            && in_built_in(a + seq!['/'] + name + seq!['/'] + b) && in_built_in(
            name + seq!['/'] + b,
        ),
        in_built_in(name) ==> built_in().contains(name),
        in_built_in(a) ==> exists|i: int|
            0 <= i < parts(a).len() && (#[trigger] parts(a)[i] is Name) && built_in().contains(
                parts(a)[i]->Name_0,
            ),
{
    part_is_there(a, name, b);
    let p = a + seq!['/'] + name;
    if built_in().contains(name) {
        assert(parts(name)[0] == Part::Name(name));
        assert(parts(p)[parts(p).len() - 1] == Part::Name(name));
    }
}

/// Below its root, a matcher looks at a path from there on.
pub proof fn paths_are_looked_at_from_the_root(root: Seq<char>, rel: Seq<char>)
    requires
        root.len() > 0,
        root[0] == '/',
        root.last() != '/',
    ensures
        looked_at(root, root + seq!['/'] + rel) == rel,
        rel.len() == 0 || rel[0] != '/' ==> is_covered(root, root + seq!['/'] + rel),
{
    let p = root + seq!['/'] + rel;
    beginning_is(root);
    assert(parts(root)[0] == Part::Root);
    assert(seq![Part::Current][0] == Part::Current);
    assert(p[root.len() as int] == '/');
    assert(p.contains('/'));
    assert(root =~= p.subrange(0, root.len() as int));
    let rest = p.skip(root.len() as int);
    assert(rest[0] == '/');
    assert(rest.skip(1) =~= rel);
}

/// The state directory is always ignored, with everything in it, wherever below the root it
/// stands.
pub proof fn state_directory_is_ignored(root: Seq<char>, a: Seq<char>, b: Seq<char>)
    requires
        root.len() > 0,
        root[0] == '/',
        root.last() != '/',
    ensures
        in_state_dir(root, root + seq!['/'] + ".codrop"@),
        in_state_dir(root, root + seq!['/'] + (".codrop"@ + seq!['/'] + b)),
        in_state_dir(root, root + seq!['/'] + (a + seq!['/'] + ".codrop"@)),
        in_state_dir(root, root + seq!['/'] + (a + seq!['/'] + ".codrop"@ + seq!['/'] + b)),
        in_state_dir(root, a) ==> exists|i: int|
            0 <= i < parts(looked_at(root, a)).len() && #[trigger] parts(looked_at(root, a))[i]
                == Part::Name(".codrop"@),
{
    reveal_strlit(".codrop");
    let name = ".codrop"@;
    assert(name.len() == 7);
    assert(!name.contains('/')) by {
        assert(name[0] == '.' && name[1] == 'c' && name[2] == 'o' && name[3] == 'd' && name[4]
            == 'r' && name[5] == 'o' && name[6] == 'p');
    }
    part_is_there(a, name, b);
    paths_are_looked_at_from_the_root(root, name);
    paths_are_looked_at_from_the_root(root, name + seq!['/'] + b);
    paths_are_looked_at_from_the_root(root, a + seq!['/'] + name);
    paths_are_looked_at_from_the_root(root, a + seq!['/'] + name + seq!['/'] + b);
    assert(parts(name)[0] == Part::Name(name));
    let p = a + seq!['/'] + name;
    assert(parts(p)[parts(p).len() - 1] == Part::Name(name));
}

/// A path below the root, given by the root, a slash and the rest, is stored as the rest, each
/// backslash as a slash; given as the rest it is stored as it is, and so it is behind a `./`. The
/// rest has no empty or `.` segment at its ends, and does not lead upwards.
#[verifier::spinoff_prover]
pub proof fn paths_are_stored_from_the_root(root: Seq<char>, rel: Seq<char>, i: int)
    requires
        root.len() > 0,
        root[0] == '/',
        root.last() != '/',
        is_safe(rel),
        rel.last() != '/',
        !(rel[0] == '.' && (rel.len() == 1 || rel[1] == '/')),
        !(rel.last() == '.' && rel.len() > 1 && rel[rel.len() - 2] == '/'),
        0 <= i < rel.len(),
    ensures
        normalized(root, rel) == rel,
        normalized(root, rel + seq!['/']) == rel + seq!['/'],
        normalized(root, seq!['.', '/'] + rel) == rel,
        normalized(root, root + seq!['/'] + rel).len() == rel.len(),
        normalized(root, root + seq!['/'] + rel)[i] == (if rel[i] == '\\' {
            '/'
        } else {
            rel[i]
        }),
{
    assert(rel[0] != '/') by {
        if rel[0] == '/' {
            assert(parts(rel)[0] == Part::Root);
        }
    }
    let abs = root + seq!['/'] + rel;
    stripping_gives_the_rest(root, rel);
    assert(root.push('/') =~= root + seq!['/']);
    assert(joined(root, rel) == abs);
    assert(joined(root, abs) == abs);
    safe_path_stays_inside(root, rel);
    assert(rel != seq!['.']);
    let dir = rel + seq!['/'];
    assert(dir[0] == rel[0]);
    segments_add_up(rel, Seq::empty());
    assert(rel + seq!['/'] + Seq::<char>::empty() =~= dir);
    assert(body(Seq::<char>::empty()).len() == 0);
    assert(body(dir) =~= body(rel));
    beginning_is(rel);
    beginning_is(dir);
    assert(parts(dir) == parts(rel));
    assert(is_safe(dir));
    safe_path_stays_inside(root, dir);
    strip_undoes_join(root, dir);
    strip_undoes_join(root, rel);
    find_is(rel, '/');
    find_is(dir, '/');
    assert(trim_left(dir) == dir) by {
        assert(segment(dir).len() > 0 && segment(dir)[0] == rel[0]);
    }
    tail_len_unique(dir, 0);
    assert(dir.skip(0) =~= dir);
    assert(dir.skip(dir.len() as int) =~= Seq::<char>::empty());
    assert(dir.take(dir.len() - 1) =~= rel);
    assert(trim_right(dir, 0) == trim_right(rel, 0));
    assert(trim_left(rel) == rel) by {
        assert(segment(rel).len() > 0 && segment(rel)[0] == rel[0]);
    }
    assert(stripped(joined(root, dir), root) == Some(rel));
    assert(rel.push('/') =~= dir);
    let dotted = seq!['.', '/'] + rel;
    let dot = seq!['.'];
    assert(!dot.contains('/'));
    one_segment_is(dot);
    segments_add_up(dot, rel);
    assert(dot + seq!['/'] + rel =~= dotted);
    assert(body(dotted) =~= body(rel));
    beginning_is(dotted);
    assert(is_safe(dotted)) by {
        assert forall|k: int| 0 <= k < parts(dotted).len() implies (#[trigger] parts(
            dotted,
        )[k] is Name || parts(dotted)[k] is Current) by {
            if k > 0 {
                assert(parts(dotted)[k] == parts(rel)[k - 1]);
            }
        }
    }
    safe_path_stays_inside(root, dotted);
    strip_undoes_join(root, dotted);
    find_unique(dotted, '/', 1);
    assert(segment(dotted) =~= dot);
    assert(beyond(dotted) =~= rel);
    assert(trim_left(dotted) == trim_left(rel));
    assert(dotted.last() == rel.last());
}

/// The `.gitignore` entry for a state directory below the root is its path from there, each
/// backslash as a slash, with a slash at the end; one elsewhere has none.
pub proof fn git_entry_is_the_path_from_the_root(root: Seq<char>, rel: Seq<char>, other: Seq<char>)
    requires
        root.len() > 0,
        root.last() != '/',
        rel.len() > 0,
        rel[0] != '/',
        rel.last() != '/',
        !rel.contains('\\'),
        !(rel[0] == '.' && (rel.len() == 1 || rel[1] == '/')),
        !(rel.last() == '.' && rel.len() > 1 && rel[rel.len() - 2] == '/'),
    ensures
        git_entry(root, root + seq!['/'] + rel) == Some(rel + seq!['/']),
        !parts(root).is_prefix_of(parts(other)) ==> git_entry(root, other) is None,
{
    stripping_gives_the_rest(root, rel);
    assert forall|i: int| 0 <= i < rel.len() implies rel[i] != '\\' by {
        assert(rel.contains(rel[i]));
    }
    assert(replaced(rel, '\\', '/') =~= rel);
    assert(rel.push('/') =~= rel + seq!['/']);
}

/// An entry is listed exactly if a line of the file that is text is that entry, white space at the
/// ends aside; for `.gitignore`, slashes at the ends aside too.
pub proof fn entries_are_listed_on_lines(file: Seq<u8>, entry: Seq<char>, i: int)
    ensures
        0 <= i < text_lines(file).len() && trimmed(text_lines(file)[i]) == entry ==> is_listed(
            file,
            entry,
        ),
        0 <= i < text_lines(file).len() && without_slashes(trimmed(text_lines(file)[i]))
            == without_slashes(entry) ==> git_lists(file, entry),
        is_listed(file, entry) ==> exists|j: int|
            #![trigger text_lines(file)[j]]
            0 <= j < text_lines(file).len() && trimmed(text_lines(file)[j]) == entry,
        git_lists(file, entry) ==> exists|j: int|
            #![trigger text_lines(file)[j]]
            0 <= j < text_lines(file).len() && without_slashes(trimmed(text_lines(file)[j]))
                == without_slashes(entry),
{
}

/// A pattern that leads out of the root, or names a path elsewhere, is stored as it is given.
pub proof fn patterns_elsewhere_stay(root: Seq<char>, rel: Seq<char>, abs: Seq<char>)
    requires
        root.len() > 0,
        root[0] == '/',
        root.last() != '/',
        rel.len() > 0,
        rel[0] != '/',
        !is_safe(rel),
        abs.len() > 0,
        abs[0] == '/',
        stripped(abs, root) is None,
    ensures
        normalized(root, rel) == rel,
        normalized(root, root + seq!['/'] + rel) == root + seq!['/'] + rel,
        normalized(root, abs) == abs,
{
    let whole = root + seq!['/'] + rel;
    inside_is_by_segments(root, rel, abs);
    assert(root.push('/') + rel =~= whole);
    assert(joined(root, whole) == whole);
}

/// A `./` before a path or before the root makes no difference, and a path that is not below the
/// root is looked at as a whole.
pub proof fn leading_dot_is_left_off(root: Seq<char>, path: Seq<char>)
    requires
        !(path.len() >= 2 && path[0] == '.' && path[1] == '/'),
        !(root.len() >= 2 && root[0] == '.' && root[1] == '/'),
    ensures
        looked_at(root, seq!['.', '/'] + path) == looked_at(root, path),
        looked_at(seq!['.', '/'] + root, path) == looked_at(root, path),
        !(exists|rest: Seq<char>| #[trigger] (root + rest) == path) ==> looked_at(root, path)
            == path,
        !path.contains('/') ==> looked_at(root, path) == path,
{
    let p = seq!['.', '/'] + path;
    let r = seq!['.', '/'] + root;
    assert(p[0] == '.' && p[1] == '/');
    assert(r[0] == '.' && r[1] == '/');
    assert(p.skip(2) =~= path);
    assert(r.skip(2) =~= root);
    if root.is_prefix_of(path) {
        assert(root + path.skip(root.len() as int) =~= path);
    }
}

} // verus!
