use editor::glyph_cache::{GlyphCache, GlyphCacheKey};
use editor::text_renderer::ImageBuffer;

fn mask(tag: u8) -> ImageBuffer {
    ImageBuffer { data: vec![tag, tag, tag, tag], width: 1, height: 1, left: tag as i32, top: -1 }
}

fn key(glyph: u16) -> GlyphCacheKey {
    (1, 14, glyph)
}

#[test]
fn overfull_cache_evicts_least_recently_used() {
    let mut cache = GlyphCache::new(3);
    for g in 0..4u16 {
        cache.insert(key(g), mask(g as u8));
    }
    assert!(cache.lookup(&key(0)).is_none());
    for g in 1..4u16 {
        let found = cache.lookup(&key(g)).expect("a key that was not evicted");
        assert_eq!(found.data, vec![g as u8; 4]);
        assert_eq!(found.left, g as i32);
    }
}

#[test]
fn lookup_makes_key_most_recent() {
    let mut cache = GlyphCache::new(2);
    cache.insert(key(1), mask(1));
    cache.insert(key(2), mask(2));
    assert!(cache.lookup(&key(1)).is_some());
    cache.insert(key(3), mask(3));
    assert!(cache.lookup(&key(2)).is_none());
    assert_eq!(cache.lookup(&key(1)).unwrap().data, vec![1; 4]);
    assert_eq!(cache.lookup(&key(3)).unwrap().data, vec![3; 4]);
}

#[test]
fn insert_of_held_key_replaces_without_evicting() {
    let mut cache = GlyphCache::new(2);
    cache.insert(key(1), mask(1));
    cache.insert(key(2), mask(2));
    cache.insert(key(1), mask(9));
    assert_eq!(cache.lookup(&key(1)).unwrap().data, vec![9; 4]);
    assert_eq!(cache.lookup(&key(2)).unwrap().data, vec![2; 4]);
}

#[test]
fn keys_differ_by_font_and_size() {
    let mut cache = GlyphCache::new(4);
    cache.insert((1, 14, 5), mask(1));
    cache.insert((2, 14, 5), mask(2));
    cache.insert((1, 15, 5), mask(3));
    assert_eq!(cache.lookup(&(1, 14, 5)).unwrap().data, vec![1; 4]);
    assert_eq!(cache.lookup(&(2, 14, 5)).unwrap().data, vec![2; 4]);
    assert_eq!(cache.lookup(&(1, 15, 5)).unwrap().data, vec![3; 4]);
    assert!(cache.lookup(&(1, 14, 6)).is_none());
}

#[test]
fn zero_capacity_stores_nothing() {
    let mut cache = GlyphCache::new(0);
    cache.insert(key(1), mask(1));
    assert!(cache.lookup(&key(1)).is_none());
}

#[test]
fn lookup_hands_out_a_copy() {
    let mut cache = GlyphCache::new(1);
    cache.insert(key(1), mask(1));
    let mut copy = cache.lookup(&key(1)).unwrap();
    copy.data[0] = 200;
    assert_eq!(cache.lookup(&key(1)).unwrap().data, vec![1; 4]);
}
