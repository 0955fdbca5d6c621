use nitrohydra::cache::{cache_file_name, cache_is_fresh, hex_string, ThumbCache};

#[test]
fn hex_renders_each_byte_as_two_digits() {
    assert_eq!(hex_string(&vec![]).as_str(), "");
    assert_eq!(hex_string(&vec![0x00, 0xff, 0x1a]).as_str(), "00ff1a");
}

#[test]
fn file_name_is_digest_of_path() {
    // the well-known digest of "abc"
    assert_eq!(
        cache_file_name("abc").as_str(),
        "900150983cd24fb0d6963f7d28e17f72.png"
    );
}

#[test]
fn file_name_is_stable_and_path_sensitive() {
    let a = cache_file_name("/pictures/alps.jpg");
    let b = cache_file_name("/pictures/alps.jpg");
    let c = cache_file_name("/pictures/sea.jpg");
    assert_eq!(a, b);
    assert_ne!(a, c);
    assert!(a.ends_with(".png"));
    assert_eq!(a.len(), 36);
}

#[test]
fn freshness_is_not_older_than_source() {
    assert!(cache_is_fresh(10, 10));
    assert!(cache_is_fresh(11, 10));
    assert!(!cache_is_fresh(9, 10));
}

#[test]
fn save_then_load_returns_identical_pixels() {
    let mut c = ThumbCache::new();
    c.save("/p/a.png", 100, vec![1, 2, 3, 4]);
    assert_eq!(c.load("/p/a.png", 100), Some(&vec![1, 2, 3, 4]));
    assert_eq!(c.load("/p/a.png", 90), Some(&vec![1, 2, 3, 4]));
}

#[test]
fn advancing_source_mtime_invalidates() {
    let mut c = ThumbCache::new();
    c.save("/p/a.png", 100, vec![1, 2, 3, 4]);
    assert_eq!(c.load("/p/a.png", 101), None);
    // a new save for the same path overwrites the same slot
    c.save("/p/a.png", 101, vec![9, 9]);
    assert_eq!(c.load("/p/a.png", 101), Some(&vec![9, 9]));
}

#[test]
fn missing_entry_loads_nothing() {
    let mut c = ThumbCache::new();
    c.save("/p/a.png", 100, vec![1]);
    assert_eq!(c.load("/p/b.png", 0), None);
}
