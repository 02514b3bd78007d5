use projectloupe::derive_cache_key;

#[test]
fn test_cache_key_deterministic() {
    let key1 = derive_cache_key("/photos/img001.cr3", 25000000, 1700000000000);
    let key2 = derive_cache_key("/photos/img001.cr3", 25000000, 1700000000000);
    assert_eq!(key1, key2);
    assert_eq!(key1.len(), 32); // 16 digest bytes as hex = 32 chars
}

#[test]
fn test_cache_key_is_lowercase_hex() {
    let key = derive_cache_key("/photos/img001.cr3", 123, 456);
    assert_eq!(key.len(), 32);
    for c in key.chars() {
        assert!(c.is_ascii_hexdigit());
        assert!(!c.is_ascii_uppercase());
    }
    // the digest mixes its input: the key of an all-zero-ish triple is not
    // the zero string
    let zero_key = derive_cache_key("", 0, 0);
    assert_ne!(zero_key, "00000000000000000000000000000000");
}

#[test]
fn test_cache_key_changes_with_size() {
    let key1 = derive_cache_key("/photos/img001.cr3", 25000000, 1700000000000);
    let key2 = derive_cache_key("/photos/img001.cr3", 25000001, 1700000000000);
    assert_ne!(key1, key2);
}

#[test]
fn test_cache_key_changes_with_mtime() {
    let key1 = derive_cache_key("/photos/img001.cr3", 25000000, 1700000000000);
    let key2 = derive_cache_key("/photos/img001.cr3", 25000000, 1700000000001);
    assert_ne!(key1, key2);
}

#[test]
fn test_cache_key_changes_with_path() {
    let key1 = derive_cache_key("/photos/img001.cr3", 25000000, 1700000000000);
    let key2 = derive_cache_key("/photos/img002.cr3", 25000000, 1700000000000);
    assert_ne!(key1, key2);
}
