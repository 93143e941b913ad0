//! Thumbnails: requests and eviction.

use png_metadata_gui::thumbs::{
    evict_stale_textures, touch_texture_order, Textures, ThumbFate, ThumbPool, Thumbnails,
    MAX_TEXTURES,
};

/// `count` cached thumbnails, inserted oldest (`img0`) to newest.
fn cache(count: usize) -> Textures<()> {
    let mut textures = Textures::new();
    for i in 0..count {
        textures.insert(format!("img{i}.png"), ());
    }
    textures
}

#[test]
fn eviction_drops_the_least_recently_drawn_entry() {
    let mut textures = cache(4);
    evict_stale_textures(&mut textures, 3);
    assert_eq!(textures.paths().len(), 3);
    assert_eq!(textures.len(), 3);
    assert!(!textures.contains_key("img0.png"));
}

#[test]
fn drawing_an_old_thumbnail_protects_it_from_eviction() {
    // `img0` is the oldest insertion, so age-ordered eviction would drop
    // exactly the thumbnail that is on screen. Drawing it must not.
    let mut textures = cache(4);
    let drawn = vec!["img0.png".to_string(), "img0.png".to_string()];
    touch_texture_order(&mut textures, &drawn);
    // Repeats collapse: one entry per path, so the cap still counts textures.
    assert_eq!(textures.paths().len(), 4);
    assert_eq!(textures.paths().last().map(String::as_str), Some("img0.png"));
    evict_stale_textures(&mut textures, 3);
    assert!(textures.contains_key("img0.png"));
    assert!(!textures.contains_key("img1.png"));
}

#[test]
fn drawn_order_becomes_the_new_tail_order() {
    let mut textures = cache(3);
    let drawn = vec!["img2.png".to_string(), "img0.png".to_string()];
    touch_texture_order(&mut textures, &drawn);
    assert_eq!(textures.paths(), vec!["img1.png", "img2.png", "img0.png"]);
}

#[test]
fn touching_a_path_with_no_texture_does_not_grow_the_order() {
    let mut textures = cache(2);
    touch_texture_order(&mut textures, &vec!["gone.png".to_string()]);
    assert_eq!(textures.paths().len(), 2);
}

#[test]
fn the_first_of_two_drawings_in_a_pass_places_an_entry() {
    let mut textures = cache(3);
    let drawn: Vec<String> =
        ["img1.png", "img2.png", "img1.png"].iter().map(|path| path.to_string()).collect();
    touch_texture_order(&mut textures, &drawn);
    assert_eq!(textures.paths(), ["img0.png", "img1.png", "img2.png"]);
}

#[test]
fn eviction_under_the_cap_changes_nothing() {
    let mut textures = cache(3);
    evict_stale_textures(&mut textures, 3);
    assert_eq!(textures.paths(), ["img0.png", "img1.png", "img2.png"]);
    evict_stale_textures(&mut textures, 0);
    assert_eq!(textures.len(), 0);
    assert!(textures.paths().is_empty());
}

#[test]
fn a_thumbnail_in_flight_is_not_queued_twice() {
    let mut pool = ThumbPool::new();
    assert!(pool.request("a.png"));
    assert!(!pool.request("a.png"));
    assert!(pool.request("b.png"));
    assert_eq!(pool.pending(), 2);
    pool.poll(&vec!["a.png".to_string(), "never.png".to_string()]);
    assert_eq!(pool.pending(), 1);
    assert!(pool.request("a.png"));
    pool.refused("a.png");
    assert_eq!(pool.pending(), 1);
    assert!(pool.request("a.png"));
}

#[test]
fn a_failure_is_never_tried_again() {
    let mut thumbs: Thumbnails<u32> = Thumbnails::new();
    assert!(thumbs.request("a.png"));
    assert_eq!(thumbs.finished("a.png", true, true), ThumbFate::Upload);
    thumbs.store("a.png".to_string(), 7);
    assert_eq!(thumbs.textures.get("a.png"), Some(&7));
    assert!(thumbs.request("b.png"));
    assert_eq!(thumbs.finished("b.png", true, false), ThumbFate::Failed);
    thumbs.pool.poll(&vec!["a.png".to_string(), "b.png".to_string()]);
    assert!(!thumbs.request("b.png"));
    assert_eq!(thumbs.finished("gone.png", false, true), ThumbFate::Discard);
    thumbs.clear();
    assert_eq!(thumbs.textures.len(), 0);
    assert!(thumbs.request("b.png"));
}

#[test]
fn the_stored_textures_stay_under_the_cap() {
    let mut thumbs: Thumbnails<usize> = Thumbnails::new();
    for i in 0..MAX_TEXTURES + 3 {
        thumbs.store(format!("{i}.png"), i);
    }
    assert_eq!(thumbs.textures.len(), MAX_TEXTURES);
    assert!(thumbs.textures.get("2.png").is_none());
    assert_eq!(thumbs.textures.get("3.png"), Some(&3));
}
