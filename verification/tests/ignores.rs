use codrop::ignores::{ensure_gitignore, is_built_in, is_ignored};
use codrop::paths::join;
use codrop::{
    append_ignore, ignore_state_in_git, normalize_pattern, Engine, Matcher, IGNORE_DIRS, IGNORE_FILE,
};

const ROOT: &str = "/tmp/tree";

fn text(bytes: Vec<u8>) -> String {
    String::from_utf8(bytes).unwrap()
}

fn at(rel: &str) -> String {
    join(ROOT, rel)
}

#[test]
fn built_in_dirs_are_ignored() {
    let m = Matcher::load(ROOT, None);
    assert!(m.is_ignored(&at(".codrop"), true));
    assert!(m.is_ignored(&at(".codrop/status.json"), false));
    assert!(m.is_ignored(&at("node_modules/foo/index.js"), false));
    assert!(m.is_ignored(&at(".git/HEAD"), false));
    assert!(!m.is_ignored(&at("src/main.rs"), false));
}

#[test]
fn codropignore_patterns_apply() {
    let m = Matcher::load(ROOT, Some(b"*.log\n.venv/\nsecret.env\n"));
    assert!(m.is_ignored(&at("run.log"), false));
    assert!(m.is_ignored(&at(".venv"), true));
    assert!(m.is_ignored(&at(".venv/lib/x.py"), false));
    assert!(m.is_ignored(&at("secret.env"), false));
    assert!(!m.is_ignored(&at("keep.txt"), false));
}

#[test]
fn negation_can_unignore() {
    let m = Matcher::load(ROOT, Some(b"*.log\n!keep.log\n"));
    assert!(m.is_ignored(&at("run.log"), false));
    assert!(!m.is_ignored(&at("keep.log"), false));
}

#[test]
fn user_patterns_override_the_defaults() {
    let m = Matcher::load(ROOT, Some(b"!dist\n"));
    assert!(!m.is_ignored(&at("dist/app.js"), false));
    assert!(m.is_ignored(&at("target/x"), false));
}

#[test]
fn marks_comments_and_unclosed_classes_are_no_trouble() {
    let m = Matcher::load(ROOT, Some("\u{feff}*.tmp\r\n# comment\n\na[b\nz.txt".as_bytes()));
    assert!(m.is_ignored(&at("x.tmp"), false));
    assert!(m.is_ignored(&at("z.txt"), false));
    assert!(!m.is_ignored(&at("# comment"), false));
}

#[test]
fn a_matcher_covers_its_root() {
    let m = Matcher::load(ROOT, None);
    assert!(m.covers(&at("a/b")));
    assert!(m.covers(ROOT));
    assert!(m.covers("a/b"));
    assert!(!m.covers("/etc/passwd"));
    assert!(!m.covers("/tmp"));
}

#[test]
fn built_in_names() {
    assert_eq!(
        IGNORE_DIRS,
        [".codrop", "node_modules", ".git", "target", "dist", "build", ".next"]
    );
    assert!(is_built_in("target"));
    assert!(!is_built_in("targets"));
    assert!(is_ignored("/home/me/code/node_modules/x/index.js"));
    assert!(is_ignored("build"));
    assert!(!is_ignored("/home/me/code/src/main.rs"));
    assert_eq!(IGNORE_FILE, ".codropignore");
}

#[test]
fn patterns_are_normalized() {
    let kept = [
        "*.log",
        "__pycache__",
        "!keep.log",
        ".env",
        ".",
        "",
        ".venv/",
        "sub/x.log",
        "sub/dir/",
        "sub//x.log",
        "**/*.o",
        "a\\b",
        "\\#x",
        "/elsewhere/x",
        "/home/me/code",
        "/home/me/code/../etc/x",
        "../x",
        "a/../b",
        "./",
        "/home/me/codex/y",
    ];
    for p in kept {
        assert_eq!(normalize_pattern("/home/me/code", p), p);
    }
    assert_eq!(normalize_pattern("/home/me/code", "/home/me/code/sub/x.log"), "sub/x.log");
    assert_eq!(normalize_pattern("/home/me/code", "/home/me/code/.venv/"), ".venv");
    // Relative to the root: what names the root itself goes, a slash at the end stays.
    assert_eq!(normalize_pattern("/home/me/code", "./x.log"), "x.log");
    assert_eq!(normalize_pattern("/home/me/code", "././sub/x.log"), "sub/x.log");
    assert_eq!(normalize_pattern("/home/me/code", "./.venv/"), ".venv/");
    assert_eq!(normalize_pattern("/home/me/code", "sub/."), "sub");
    assert_eq!(normalize_pattern("/home/me/code", "./a\\ b"), "a\\ b");
    assert_eq!(normalize_pattern("/home/me/code", "/home/me/code/a\\b"), "a/b");
}

#[test]
fn patterns_are_appended_once() {
    let one = append_ignore(b"", " *.log ").unwrap();
    assert_eq!(one, b"*.log\n");
    assert_eq!(append_ignore(&one, "*.log"), None);
    let two = append_ignore(b"*.log", ".env").unwrap();
    assert_eq!(two, b"*.log\n.env\n");
    assert_eq!(append_ignore(b"  *.log\t\r\n", "*.log"), None);
    assert_eq!(append_ignore(&two, ".env"), None);
}

#[test]
fn state_dir_is_gitignored() {
    let root = "/tmp/A";
    let state = "/tmp/A/.codrop";
    Engine::open(root, state, &Vec::new(), None, "d".to_string());

    // Opening the engine goes with adding .codrop/ to the root .gitignore.
    let gi = text(ignore_state_in_git(root, state, b"").unwrap());
    assert!(gi.lines().any(|l| l.trim().trim_end_matches('/') == ".codrop"));

    // Idempotent and non-destructive: a pre-existing .gitignore keeps its entries and gets
    // .codrop appended exactly once.
    let gi2 = text(ignore_state_in_git(root, state, b"target/\n").unwrap());
    assert!(gi2.contains("target/"));
    assert_eq!(gi2.matches(".codrop").count(), 1);
    assert_eq!(ignore_state_in_git(root, state, gi2.as_bytes()), None);
}

#[test]
fn git_entries_match_with_or_without_slash() {
    assert_eq!(ensure_gitignore(b"a\n.codrop", ".codrop/"), None);
    assert_eq!(ensure_gitignore(b" .codrop// \n", ".codrop/"), None);
    assert_eq!(ensure_gitignore(b"x", ".codrop/").unwrap(), b"x\n.codrop/\n");
    // A state directory elsewhere is none of git's business.
    assert_eq!(ignore_state_in_git("/tmp/A", "/var/state", b""), None);
    assert_eq!(ignore_state_in_git("/tmp/A", "/tmp/A/x/y", b"").unwrap(), b"x/y/\n");
}

#[test]
fn files_that_are_not_text_are_only_appended_to() {
    // A Latin-1 comment in front of an entry.
    let latin = b"# caf\xe9\ntarget/\n\xff\xfe";
    let new = ensure_gitignore(latin, ".codrop/").unwrap();
    assert_eq!(new, b"# caf\xe9\ntarget/\n\xff\xfe\n.codrop/\n");
    assert_eq!(ensure_gitignore(&new, ".codrop/"), None);
    // The lines that are text are read all the same.
    assert_eq!(ensure_gitignore(latin, "target"), None);
    assert_eq!(append_ignore(latin, "target/"), None);
    let ignore = append_ignore(latin, "caf\u{e9}").unwrap();
    assert_eq!(ignore, b"# caf\xe9\ntarget/\n\xff\xfe\ncaf\xc3\xa9\n");
    assert_eq!(append_ignore(&ignore, "caf\u{e9}"), None);
    assert_eq!(append_ignore(&ignore, "target/"), None);
}

#[test]
fn the_state_dir_is_always_ignored() {
    let m = Matcher::load(ROOT, Some(b"!.codrop\n!.codrop/**\n!*\n"));
    assert!(m.is_ignored(&at(".codrop"), true));
    assert!(m.is_ignored(&at(".codrop/status.json"), false));
    assert!(m.is_ignored(&at("sub/.codrop/objects/ab"), false));
    assert!(m.is_ignored(".codrop/x", false));
    assert!(!m.is_ignored(&at(".codropignore"), false));
    assert!(!m.is_ignored(&at("node_modules/x"), false));
}

#[test]
fn a_malformed_file_leaves_the_built_in_names() {
    // A class that ends before it begins, an alternation that is not closed, and no text.
    for file in [&b"*.log\n[z-a]\n!dist\n"[..], b"*.log\na{b\n!dist\n", b"*.log\n\xff\n!dist\n"] {
        let m = Matcher::load(ROOT, Some(file));
        assert!(!m.is_ignored(&at("run.log"), false));
        assert!(m.is_ignored(&at("dist/app.js"), false));
        assert!(m.is_ignored(&at("node_modules/x"), false));
        assert!(!m.is_ignored(&at("src/main.rs"), false));
    }
}
