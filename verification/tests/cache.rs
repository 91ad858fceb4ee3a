use format_galaxy::cache::{compiled_cache_path, module_cache_key, plugin_blob_name};

#[test]
fn cache_key_is_the_content_hash() {
    // Cross-checked against the hash the engine cache would compute
    // itself: equal bytes, equal key.
    let key = module_cache_key(b"some wasm bytes");
    assert_eq!(key, blake3::hash(b"some wasm bytes").to_hex().as_str());
    assert_eq!(key.len(), 64);
    assert!(key.chars().all(|c| c.is_ascii_hexdigit() && !c.is_ascii_uppercase()));
}

#[test]
fn cache_key_of_empty_input() {
    assert_eq!(
        module_cache_key(b""),
        "af1349b9f5f9a1a6a0404dea36dcc9499bcb25c9adc112b7cc9a93cae41f3262"
    );
}

#[test]
fn equal_bytes_give_equal_keys() {
    let a = module_cache_key(&[0, 1, 2, 3]);
    let b = module_cache_key(&[0, 1, 2, 3]);
    let c = module_cache_key(&[0, 1, 2, 4]);
    assert_eq!(a, b);
    assert_ne!(a, c);
}

#[test]
fn cache_paths() {
    let key = module_cache_key(b"m");
    assert_eq!(compiled_cache_path(&key), format!("cache/compiled/{}", key));
    assert_eq!(plugin_blob_name(&key), format!("{}.wasm", key));
}
