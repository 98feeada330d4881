use codrop::paths::{components, file_name, join, safe, strip_prefix, Component};
use std::path::Path;

const SAMPLES: [&str; 40] = [
    "", "/", "//", ".", "..", "./", "../", "/.", "/..", "a", "a/", "/a", "/a/", "a/b", "/a/b",
    "./a", "./a/b", "a/./b", "a/../b", "a//b", "/a//b/", "//a", "/./a", "././a", ".a", "a.", "...",
    "a/.", "a/..", "a/./", "/a/./b/.", "a/b/c", "/a/b/c", "./.", ".//a", "/a/b/../c", "\u{e9}/\u{4e2d}",
    "a b/c", "a\\b", "/tmp/x/tree/sub/file.txt",
];

fn std_components(p: &str) -> Vec<Component> {
    Path::new(p)
        .components()
        .map(|c| match c {
            std::path::Component::RootDir => Component::Root,
            std::path::Component::CurDir => Component::Current,
            std::path::Component::ParentDir => Component::Parent,
            std::path::Component::Normal(n) => Component::Name(n.to_str().unwrap().to_string()),
            std::path::Component::Prefix(_) => panic!("no prefixes here"),
        })
        .collect()
}

#[test]
fn components_are_those_of_std() {
    for p in SAMPLES {
        assert_eq!(components(p), std_components(p), "{p:?}");
    }
}

#[test]
fn joining_is_that_of_std() {
    for base in SAMPLES {
        for p in SAMPLES {
            let expected = Path::new(base).join(p).to_str().unwrap().to_string();
            assert_eq!(join(base, p), expected, "{base:?} {p:?}");
        }
    }
}

#[test]
fn stripping_is_that_of_std() {
    for path in SAMPLES {
        for base in SAMPLES {
            let expected = Path::new(path)
                .strip_prefix(base)
                .ok()
                .map(|p| p.to_str().unwrap().to_string());
            assert_eq!(strip_prefix(path, base), expected, "{path:?} {base:?}");
        }
    }
    for base in SAMPLES {
        for p in SAMPLES {
            let path = join(base, p);
            let expected = Path::new(&path)
                .strip_prefix(base)
                .ok()
                .map(|p| p.to_str().unwrap().to_string());
            assert_eq!(strip_prefix(&path, base), expected, "{path:?} {base:?}");
        }
    }
}

#[test]
fn file_names_are_those_of_std() {
    for p in SAMPLES {
        let expected = Path::new(p).file_name().map(|n| n.to_str().unwrap().to_string());
        assert_eq!(file_name(p), expected, "{p:?}");
    }
}

#[test]
fn safe_paths_have_only_names() {
    for p in SAMPLES {
        let expected = !p.is_empty()
            && Path::new(p).components().all(|c| {
                matches!(c, std::path::Component::Normal(_) | std::path::Component::CurDir)
            });
        assert_eq!(safe(p), expected, "{p:?}");
    }
    assert!(safe("a/b"));
    assert!(!safe("/a"));
    assert!(!safe("a/../b"));
    assert!(!safe(""));
}

#[test]
fn a_safe_path_stays_inside() {
    for p in SAMPLES {
        if safe(p) {
            let full = join("/root/tree", p);
            assert!(Path::new(&full).starts_with("/root/tree"), "{p:?}");
            assert!(!full.split('/').any(|s| s == ".."), "{p:?}");
        }
    }
    assert_eq!(strip_prefix(&join("/root/tree", "a/b"), "/root/tree"), Some("a/b".to_string()));
    assert_eq!(strip_prefix(&join("/root/tree", "./a/"), "/root/tree"), Some("a".to_string()));
}
