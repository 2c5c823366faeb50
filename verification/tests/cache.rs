use sitegen::cache::{content_hash, decode_hash, encode_hash, BuildCache, CacheEntry};

fn entry(path: &str, content: &[u8]) -> CacheEntry {
    CacheEntry { path: path.to_string(), hash: content_hash(content) }
}

#[test]
fn hash_of_known_contents() {
    assert_eq!(content_hash(b""), 0xcbf29ce484222325);
    assert_eq!(content_hash(b"a"), 0xaf63dc4c8601ec8c);
    assert_eq!(content_hash(b"foobar"), 0x85944171f73967e8);
}

#[test]
fn one_changed_byte_changes_the_hash() {
    let content = b"# Title\n\nSome text of a page.\n".to_vec();
    let hash = content_hash(&content);
    for at in 0..content.len() {
        for bit in 0..8 {
            let mut changed = content.clone();
            changed[at] ^= 1 << bit;
            assert_ne!(content_hash(&changed), hash);
        }
    }
}

#[test]
fn record_is_eight_bytes_lowest_first() {
    assert_eq!(encode_hash(0x0102030405060708), vec![8, 7, 6, 5, 4, 3, 2, 1]);
    assert_eq!(encode_hash(0), vec![0; 8]);
    assert_eq!(decode_hash(&[8, 7, 6, 5, 4, 3, 2, 1]), Some(0x0102030405060708));
    assert_eq!(decode_hash(&[1, 2, 3]), None);
    assert_eq!(decode_hash(&[0; 9]), None);
    assert_eq!(decode_hash(&[]), None);
    for hash in [0, 1, u64::MAX, 0xcbf29ce484222325] {
        assert_eq!(decode_hash(&encode_hash(hash)), Some(hash));
    }
}

#[test]
fn unseen_path_is_not_skipped() {
    let cache = BuildCache::new();
    assert!(!cache.should_skip("a.md", 1));
    assert_eq!(cache.hash_at("a.md"), None);
}

#[test]
fn recorded_hash_is_compared() {
    let mut cache = BuildCache::new();
    cache.record("a.md", 1);
    cache.record("b.md", 2);
    assert!(cache.should_skip("a.md", 1));
    assert!(!cache.should_skip("a.md", 2));
    assert!(cache.should_skip("b.md", 2));
    assert!(!cache.should_skip("c.md", 1));
    cache.record("a.md", 3);
    assert!(cache.should_skip("a.md", 3));
    assert!(!cache.should_skip("a.md", 1));
    assert!(cache.should_skip("b.md", 2));
    assert_eq!(cache.hash_at("a.md"), Some(3));
}

#[test]
fn second_run_skips_and_a_changed_byte_does_not() {
    let mut cache = BuildCache::new();
    let source = entry("pages/a.md", b"# A\n");
    let options = entry("pages/a.ini", b"title=A\n");
    let template = entry("templates/default.html", b"{body}");
    assert!(!cache.is_fresh(&source, &options, &template, true));
    assert!(cache.is_fresh(&source, &options, &template, true));
    assert!(cache.is_fresh(&source, &options, &template, true));

    let changed = entry("pages/a.md", b"# B\n");
    assert!(!cache.is_fresh(&changed, &options, &template, true));
    assert!(cache.is_fresh(&changed, &options, &template, true));
}

#[test]
fn missing_output_is_never_fresh() {
    let mut cache = BuildCache::new();
    let source = entry("a.md", b"a");
    let options = entry("a.ini", b"");
    let template = entry("t.html", b"{body}");
    assert!(!cache.is_fresh(&source, &options, &template, false));
    assert!(!cache.is_fresh(&source, &options, &template, false));
    assert!(cache.is_fresh(&source, &options, &template, true));
}

#[test]
fn changed_options_or_template_rebuild() {
    let mut cache = BuildCache::new();
    let source = entry("a.md", b"a");
    let options = entry("a.ini", b"x=1");
    let template = entry("t.html", b"{body}");
    cache.is_fresh(&source, &options, &template, true);
    assert!(!cache.is_fresh(&source, &entry("a.ini", b"x=2"), &template, true));
    assert!(!cache.is_fresh(&source, &entry("a.ini", b"x=2"), &entry("t.html", b"{body}!"), true));
    assert!(cache.is_fresh(&source, &entry("a.ini", b"x=2"), &entry("t.html", b"{body}!"), true));
}

#[test]
fn hashes_are_recorded_even_where_the_output_is_stale() {
    let mut cache = BuildCache::new();
    let source = entry("a.md", b"a");
    let options = entry("a.ini", b"");
    let template = entry("t.html", b"");
    assert!(!cache.is_fresh(&source, &options, &template, false));
    assert!(cache.should_skip("a.md", source.hash));
    assert!(cache.should_skip("a.ini", options.hash));
    assert!(cache.should_skip("t.html", template.hash));
}

#[test]
fn entries_hold_one_hash_per_path() {
    let mut cache = BuildCache::new();
    assert!(cache.entries().is_empty());
    cache.record("a", 1);
    cache.record("b", 2);
    cache.record("a", 3);
    let entries = cache.entries();
    assert_eq!(entries.len(), 2);
    assert!(entries.contains(&CacheEntry { path: "a".to_string(), hash: 3 }));
    assert!(entries.contains(&CacheEntry { path: "b".to_string(), hash: 2 }));
}
