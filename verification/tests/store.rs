use codrop::digest::digest_form;
use codrop::store::{parse_manifest, render_manifest, StoreError};
use codrop::BlobStore;

#[test]
fn verify_content_catches_tampering() {
    let mut store = BlobStore::open("/tmp/store");

    let real = store.put_bytes(b"the real content");
    assert!(store.verify_content(&real));

    // A lying manifest: point a bogus full-hash at the real (individually-valid) chunks.
    // Reassembly won't equal the claimed hash, so verification must fail.
    let chunks = store.get_manifest(&real).unwrap();
    let fake = "0".repeat(64);
    store.put_manifest(&fake, &chunks);
    assert!(!store.verify_content(&fake));
}

#[test]
fn chunking_dedups_and_deltas() {
    let mut store = BlobStore::open("/tmp/store");

    // A large pseudo-random blob: many distinct chunks.
    let mut seed = 0x1234_5678u64;
    let mut a = vec![0u8; 300_000];
    for byte in a.iter_mut() {
        seed = seed.wrapping_mul(6364136223846793005).wrapping_add(1442695040888963407);
        *byte = (seed >> 33) as u8;
    }
    let ha = store.put_bytes(&a);
    let objs1 = store.object_count();
    assert!(objs1 > 5, "expected the blob to split into several chunks, got {objs1}");

    // Storing identical content again adds nothing (full dedup).
    store.put_bytes(&a);
    assert_eq!(store.object_count(), objs1);

    // A one-byte edit changes only a chunk or two (content-defined boundaries localize it).
    let mut b = a.clone();
    b[150_000] ^= 0xFF;
    let hb = store.put_bytes(&b);
    assert_ne!(ha, hb);
    let new = store.object_count() - objs1;
    assert!((1..5).contains(&new), "expected a few new chunks, got {new} of {objs1}");

    // Reassembly is exact for both versions.
    assert_eq!(store.read(&ha).unwrap(), a);
    assert_eq!(store.read(&hb).unwrap(), b);
}

#[test]
fn content_is_kept_under_its_digest() {
    let mut store = BlobStore::open("/s");
    let h = store.put_bytes(b"");
    // The BLAKE3 digest of nothing.
    assert_eq!(h, "af1349b9f5f9a1a6a0404dea36dcc9499bcb25c9adc112b7cc9a93cae41f3262");
    assert_eq!(store.get_manifest(&h).unwrap(), Vec::<String>::new());
    assert_eq!(store.read(&h).unwrap(), Vec::<u8>::new());
    assert_eq!(store.object_count(), 0);
    assert_eq!(store.manifest_count(), 1);

    let abc = store.put_bytes(b"abc");
    assert_eq!(abc, "6437b3ac38465133ffb63b75273a8db548c558465d79db03fd359c6cd5bd9d85");
    // One chunk: the manifest lists the digest of the whole.
    assert_eq!(store.get_manifest(&abc).unwrap(), vec![abc.clone()]);
    assert!(store.has_chunk(&abc));
    assert_eq!(store.read_chunk(&abc).unwrap(), b"abc");
}

#[test]
fn chunks_are_checked_against_their_digest() {
    let mut store = BlobStore::open("/s");
    let abc = "6437b3ac38465133ffb63b75273a8db548c558465d79db03fd359c6cd5bd9d85";
    assert_eq!(
        store.put_chunk("wrong", b"abc"),
        Err(StoreError::ChunkMismatch { actual: abc.into(), expected: "wrong".into() })
    );
    assert!(!store.has_chunk("wrong"));
    assert!(store.read_chunk("wrong").is_none());
    assert_eq!(store.put_chunk(abc, b"abc"), Ok(()));
    assert!(store.has_chunk(abc));
}

#[test]
fn content_with_a_missing_chunk_is_not_there() {
    let mut store = BlobStore::open("/s");
    let chunks = vec!["aa".to_string(), "bb".to_string()];
    store.put_manifest("whole", &chunks);
    store.restore_object("aa", b"12".to_vec());
    assert!(!store.has("whole"));
    assert!(store.read("whole").is_none());
    assert!(!store.verify_content("whole"));
    assert_eq!(
        store.materialize("whole"),
        Err(StoreError::NotInStore { hash: "whole".into() })
    );
    store.restore_object("bb", b"34".to_vec());
    assert!(store.has("whole"));
    assert_eq!(store.read("whole").unwrap(), b"1234");
    assert_eq!(store.assemble(&vec!["bb".to_string()]).unwrap(), b"34");
    assert!(!store.has("other"));
    // A manifest that is there stays.
    store.put_manifest("whole", &vec!["bb".to_string()]);
    assert_eq!(store.get_manifest("whole").unwrap(), chunks);
}

#[test]
fn manifests_are_one_digest_per_line() {
    let list = vec!["a1".to_string(), "b2".to_string(), "c3".to_string()];
    assert_eq!(render_manifest(&list), "a1\nb2\nc3");
    assert_eq!(parse_manifest("a1\nb2\nc3"), list);
    assert_eq!(parse_manifest("\na1\r\n\nb2\nc3\n"), list);
    assert_eq!(render_manifest(&Vec::new()), "");
    assert_eq!(parse_manifest(""), Vec::<String>::new());
    let mut store = BlobStore::open("/s");
    store.restore_manifest("x", "a1\nb2\n".to_string());
    assert_eq!(store.manifest_at(0).0, "x");
    assert_eq!(store.manifest_at(0).1, "a1\nb2\n");
}

#[test]
fn files_are_sharded() {
    let store = BlobStore::open("/s/blobs");
    assert_eq!(store.object_path("abcdef"), "/s/blobs/objects/ab/cdef");
    assert_eq!(store.manifest_path("abcdef"), "/s/blobs/manifests/ab/cdef");
    assert_eq!(store.object_path("ab"), "/s/blobs/objects/ab/");
    assert_eq!(store.object_path("a"), "/s/blobs/objects/__invalid__/a");
    assert_eq!(store.object_path(""), "/s/blobs/objects/__invalid__/");
    assert_eq!(store.shard_path("kind", "\u{e9}x"), "/s/blobs/kind/\u{e9}/x");
    // Whatever a name is, its file stays below the kind's directory.
    assert_eq!(
        store.shard_path("kind", "ab/etc/passwd"),
        "/s/blobs/kind/__invalid__/_ab_etc_passwd"
    );
    assert_eq!(store.shard_path("kind", "../x"), "/s/blobs/kind/__invalid__/_.._x");
    assert_eq!(store.shard_path("kind", ".."), "/s/blobs/kind/__invalid__/_..");
    assert_eq!(store.shard_path("kind", "ab.."), "/s/blobs/kind/__invalid__/_ab..");
    assert_eq!(store.shard_path("kind", "//"), "/s/blobs/kind/__invalid__/___");
}

#[test]
fn objects_are_listed_in_order() {
    let mut store = BlobStore::open("/s");
    store.restore_object("b", vec![2]);
    store.restore_object("a", vec![1]);
    store.restore_object("b", vec![3]);
    assert_eq!(store.object_count(), 2);
    assert_eq!(store.object_at(0), ("a", &vec![1]));
    assert_eq!(store.object_at(1), ("b", &vec![3]));
}

#[test]
fn large_content_is_cut_within_bounds() {
    let mut store = BlobStore::open("/s");
    let zeros = vec![0u8; 200_000];
    let h = store.put_bytes(&zeros);
    let list = store.get_manifest(&h).unwrap();
    let mut total = 0;
    for c in &list {
        let n = store.read_chunk(c).unwrap().len();
        assert!(n <= 65536);
        total += n;
    }
    assert_eq!(total, zeros.len());
    // All but the last chunk are alike, and kept once.
    assert!(store.object_count() <= 2);
    assert!(list.len() > 2);
}

#[test]
fn the_form_of_a_digest() {
    assert!(digest_form(&"0a".repeat(32)));
    assert!(!digest_form(&"0A".repeat(32)));
    assert!(!digest_form(&"0a".repeat(31)));
    assert!(!digest_form("../../../etc/x"));
    assert!(!digest_form(""));
}

#[test]
fn chunks_have_the_sizes_aimed_at() {
    let mut store = BlobStore::open("/s/blobs");
    let noise = |n: u32| -> Vec<u8> {
        (0..n).map(|i| (i.wrapping_mul(2654435761) >> 13) as u8).collect()
    };
    for n in [1, 100, 2047, 2048] {
        let hash = store.put_bytes(&noise(n));
        assert_eq!(store.get_manifest(&hash).unwrap(), [hash]);
    }
    let hash = store.put_bytes(&noise(500_000));
    let chunks = store.get_manifest(&hash).unwrap();
    assert!(chunks.len() > 1);
    for (i, chunk) in chunks.iter().enumerate() {
        let len = store.read_chunk(chunk).unwrap().len();
        assert!(len <= 65536);
        assert!(len >= 2048 || i == chunks.len() - 1);
    }
}
