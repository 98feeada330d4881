use codrop::index::{new_device_id, permissions, record_to_tuple, tuple_to_record, DEFAULT_MODE};
use codrop::{FileRecord, Index, VClock};

fn rec(path: &str, deleted: bool) -> FileRecord {
    FileRecord {
        path: path.to_string(),
        hash: format!("hash of {path}"),
        size: 9,
        mode: 0o644,
        link: false,
        vclock: VClock::from_entries(&vec![("d".to_string(), 3)]),
        updated_ms: 12,
        deleted,
    }
}

#[test]
fn rows_are_kept_by_path() {
    let mut index = Index::open(&Vec::new(), None);
    assert!(index.get("a").is_none());
    index.upsert(&rec("b", false));
    index.upsert(&rec("a", true));
    index.upsert(&rec("c", false));
    assert_eq!(index.get("b"), Some(rec("b", false)));
    let mut changed = rec("b", false);
    changed.hash = "new".to_string();
    index.upsert(&changed);
    assert_eq!(index.get("b"), Some(changed.clone()));
    assert_eq!(index.get("c"), Some(rec("c", false)));
    // Listed in path order; tombstones are listed, but not counted.
    assert_eq!(index.all(), vec![rec("a", true), changed, rec("c", false)]);
    assert_eq!(index.count_live(), 2);
}

#[test]
fn an_index_reopens_from_its_listing() {
    let rows = vec![rec("b", false), rec("a", false), rec("b", true)];
    let index = Index::open(&rows, None);
    assert_eq!(index.all(), vec![rec("a", false), rec("b", true)]);
    let again = Index::open(&index.all(), None);
    assert_eq!(again.all(), index.all());
}

#[test]
fn a_device_keeps_its_identity() {
    let mut index = Index::open(&Vec::new(), None);
    assert_eq!(index.device_id("one".to_string()), "one");
    assert_eq!(index.device_id("two".to_string()), "one");
    let mut known = Index::open(&Vec::new(), Some("me".to_string()));
    assert_eq!(known.device_id("fresh".to_string()), "me");
}

#[test]
fn rows_survive_as_tuples() {
    let mut r = rec("x", true);
    r.size = u64::MAX;
    let row = record_to_tuple(&r);
    assert_eq!(row.2, -1);
    assert_eq!(row.5, 1);
    assert_eq!(row.6, 0o644);
    assert_eq!(row.7, 0);
    assert_eq!(tuple_to_record(row), r);
    let live = tuple_to_record(("p".into(), "h".into(), 5, VClock::new(), 7, 0, 0o755, 1));
    assert!(!live.deleted);
    assert_eq!(live.size, 5);
    assert_eq!(live.mode, 0o755);
    assert!(live.link);
    assert!(tuple_to_record((
        "p".into(),
        "h".into(),
        5,
        VClock::new(),
        7,
        -3,
        0,
        0
    )).deleted);
}

#[test]
fn device_ids_are_short_digests() {
    // The first 16 hex digits of the BLAKE3 digest of "0-1".
    let id = new_device_id(0, 1);
    assert_eq!(id.len(), 16);
    assert!(id.chars().all(|c| c.is_ascii_hexdigit()));
    let expected = blake3::hash(b"0-1").to_hex().to_string()[..16].to_string();
    assert_eq!(id, expected);
    assert_eq!(
        new_device_id(1_700_000_000_000_000_000, 4242),
        blake3::hash(b"1700000000000000000-4242").to_hex().to_string()[..16].to_string()
    );
    assert_ne!(new_device_id(1, 1), new_device_id(1, 2));
}

#[test]
fn permission_bits() {
    // A regular file, rwxr-xr-x; a directory with the sticky bit.
    assert_eq!(permissions(0o100755), 0o755);
    assert_eq!(permissions(0o041777), 0o1777);
    assert_eq!(permissions(0), 0);
    assert_eq!(DEFAULT_MODE, 0o644);
}

#[test]
fn paths_behind_a_link_are_known() {
    let mut link = rec("d/l", false);
    link.link = true;
    let index = Index::open(&vec![link.clone(), rec("e", false)], None);
    assert!(index.has_link_above("d/l/x"));
    assert!(index.has_link_above("d/l/x/y"));
    assert!(!index.has_link_above("d/l"));
    assert!(!index.has_link_above("d/lx"));
    assert!(!index.has_link_above("e/x"));
    link.deleted = true;
    assert!(!Index::open(&vec![link], None).has_link_above("d/l/x"));
}
