//! What is drawn, how big, and what is kept of it.

use evo::render::cache::{
    TextureCache, CANVAS_BUDGET, PENDING_TIMEOUT, THUMB_BUDGET,
};
use evo::render::engine::{Engine, RenderedPage};
use evo::render::{coalesce, drain, respond, scale_bucket, scale_key, RenderRequest, THUMB_SCALE};

/// One 100x100 texture is 40 000 bytes.
const PX: usize = 100;
const TEX_BYTES: usize = PX * PX * 4;

fn req(page: usize, scale: u32) -> RenderRequest {
    RenderRequest { page, scale }
}

#[test]
fn pending_is_set_and_cleared_by_insert() {
    let mut cache = TextureCache::default();
    assert!(!cache.is_pending(0, 1000, 0));
    cache.mark_pending(0, 1000, 0);
    assert!(cache.is_pending(0, 1000, 0));
    cache.insert(0, 1000, 7, PX, PX);
    assert!(!cache.is_pending(0, 1000, 0));
}

#[test]
fn dropped_request_clears_pending_so_it_can_be_asked_again() {
    let mut cache = TextureCache::default();
    cache.mark_pending(3, 2000, 0);
    assert!(cache.is_pending(3, 2000, 0));
    cache.clear_pending(3, 2000);
    assert!(!cache.is_pending(3, 2000, 0));
}

#[test]
fn pending_is_per_scale() {
    let mut cache = TextureCache::default();
    cache.mark_pending(1, 220, 0);
    assert!(cache.is_pending(1, 220, 0));
    assert!(!cache.is_pending(1, 2000, 0));
}

#[test]
fn a_request_is_not_waited_for_for_ever() {
    let mut cache = TextureCache::default();
    cache.mark_pending(0, 1000, 100);
    assert!(cache.is_pending(0, 1000, 100 + PENDING_TIMEOUT - 1));
    assert!(!cache.is_pending(0, 1000, 100 + PENDING_TIMEOUT));
    // It was forgotten, not merely answered for once.
    assert!(!cache.is_pending(0, 1000, 100));
}

#[test]
fn eviction_respects_the_byte_budget() {
    let mut cache = TextureCache::with_budget(TEX_BYTES * 3);
    for page in 0..5 {
        cache.begin_frame();
        cache.insert(page, 1000, page as u64, PX, PX);
    }
    assert!(cache.bytes() <= TEX_BYTES * 3, "over budget: {}", cache.bytes());
    assert_eq!(cache.texture_count(), 3);
    // The oldest went first.
    assert!(cache.get(0, 1000).is_none());
    assert!(cache.get(4, 1000).is_some());
}

#[test]
fn a_big_texture_evicts_more_small_ones() {
    let mut cache = TextureCache::with_budget(TEX_BYTES * 4);
    for page in 0..4 {
        cache.begin_frame();
        cache.insert(page, 1000, page as u64, PX, PX);
    }
    cache.begin_frame();
    cache.insert(9, 4000, 9, PX * 2, PX * 2); // 4x the bytes
    assert!(cache.bytes() <= TEX_BYTES * 4);
    assert!(cache.get(9, 4000).is_some());
}

#[test]
fn textures_painted_this_frame_survive_eviction() {
    let mut cache = TextureCache::with_budget(TEX_BYTES);
    cache.begin_frame();
    cache.insert(0, 1000, 0, PX, PX);
    // Page 0 is on screen this frame; inserting page 1 must not blank it,
    // even though that puts the cache over budget.
    assert!(cache.get(0, 1000).is_some());
    cache.insert(1, 1000, 1, PX, PX);
    assert!(cache.get(0, 1000).is_some());
    // Next frame, with nothing painted yet, it becomes evictable again.
    cache.begin_frame();
    cache.insert(2, 1000, 2, PX, PX);
    assert!(cache.get(0, 1000).is_none());
}

#[test]
fn get_refreshes_the_lru() {
    let mut cache = TextureCache::with_budget(TEX_BYTES * 2);
    cache.begin_frame();
    cache.insert(0, 1000, 0, PX, PX);
    cache.begin_frame();
    cache.insert(1, 1000, 1, PX, PX);
    cache.begin_frame();
    assert!(cache.get(0, 1000).is_some()); // page 0 is now most recent
    cache.begin_frame();
    cache.insert(2, 1000, 2, PX, PX);
    assert!(cache.get(0, 1000).is_some());
    assert!(cache.get(1, 1000).is_none());
}

#[test]
fn best_effort_prefers_the_sharpest_and_refreshes_the_lru() {
    let mut cache = TextureCache::default();
    cache.insert(0, 500, 1, PX, PX);
    cache.insert(0, 2000, 2, PX, PX);
    cache.insert(1, 1000, 3, PX, PX);
    let (scale, tex) = cache.best_effort(0).expect("a texture for page 0");
    assert_eq!(scale, 200, "hundredths");
    assert_eq!(tex, 2);
    // ...and it is now the most recently used key.
    assert_eq!(cache.entries.last().map(|e| e.key.scale), Some(200));
}

#[test]
fn best_effort_ignores_other_pages() {
    let mut cache = TextureCache::default();
    cache.insert(1, 1000, 1, PX, PX);
    assert!(cache.best_effort(0).is_none());
}

#[test]
fn replacing_a_key_does_not_double_count_bytes() {
    let mut cache = TextureCache::default();
    cache.insert(0, 1000, 1, PX, PX);
    cache.insert(0, 1000, 2, PX, PX);
    assert_eq!(cache.bytes(), TEX_BYTES);
    assert_eq!(cache.texture_count(), 1);
    assert_eq!(cache.get(0, 1000), Some(2));
}

#[test]
fn the_budgets_are_in_bytes() {
    assert_eq!(CANVAS_BUDGET, 384 * 1024 * 1024);
    assert_eq!(THUMB_BUDGET, 64 * 1024 * 1024);
    assert_eq!(TextureCache::default().budget, CANVAS_BUDGET);
}

#[test]
fn newest_request_for_a_page_wins() {
    let mut batch = vec![req(0, 1000)];
    let dropped = coalesce(&mut batch, req(0, 2000));
    assert_eq!(batch, vec![req(0, 2000)]);
    assert_eq!(dropped, vec![req(0, 1000)]);
}

#[test]
fn a_thumbnail_never_cancels_a_page_render() {
    let mut batch = vec![req(0, 4000)];
    let dropped = coalesce(&mut batch, req(0, THUMB_SCALE));
    assert_eq!(batch, vec![req(0, 4000), req(0, THUMB_SCALE)]);
    assert!(dropped.is_empty());
}

#[test]
fn a_page_render_never_cancels_a_thumbnail() {
    let mut batch = vec![req(0, THUMB_SCALE)];
    let dropped = coalesce(&mut batch, req(0, 4000));
    assert_eq!(batch, vec![req(0, THUMB_SCALE), req(0, 4000)]);
    assert!(dropped.is_empty());
}

#[test]
fn thumbnails_coalesce_with_each_other() {
    let mut batch = vec![req(0, THUMB_SCALE)];
    let dropped = coalesce(&mut batch, req(0, THUMB_SCALE));
    assert_eq!(batch, vec![req(0, THUMB_SCALE)]);
    assert_eq!(dropped, vec![req(0, THUMB_SCALE)]);
}

#[test]
fn other_pages_are_untouched() {
    let mut batch = vec![req(0, 1000), req(1, 1000)];
    let dropped = coalesce(&mut batch, req(2, 1000));
    assert_eq!(batch, vec![req(0, 1000), req(1, 1000), req(2, 1000)]);
    assert!(dropped.is_empty());
}

#[test]
fn every_request_is_drawn_or_dropped() {
    let round = drain(&vec![
        req(0, 1000),
        req(1, THUMB_SCALE),
        req(0, 1500),
        req(1, 1000),
        req(0, 2000),
    ]);
    assert_eq!(round.batch, vec![req(1, THUMB_SCALE), req(1, 1000), req(0, 2000)]);
    assert_eq!(round.dropped, vec![req(0, 1000), req(0, 1500)]);
}

#[test]
fn scale_bucket_is_quantized_and_clamped() {
    assert_eq!(scale_bucket(1000), 1000);
    assert_eq!(scale_bucket(1100), 1250);
    assert_eq!(scale_bucket(10), 250);
    assert_eq!(scale_bucket(99_000), 8000);
    assert_eq!(scale_key(1250), 125);
    assert_eq!(scale_key(THUMB_SCALE), 22);
}

#[test]
fn every_request_is_answered_once() {
    let queue = vec![req(0, 1000), req(0, 2000), req(1, 1000), req(0, THUMB_SCALE)];
    let round = drain(&queue);
    let page = RenderedPage {
        width: 1,
        height: 1,
        rgba: vec![255; 4],
    };
    // Page 1 could not be drawn.
    let answers = respond(&round, vec![Some(page), None, None], Engine::Hayro);
    let told: Vec<(usize, u32, bool)> = answers
        .iter()
        .map(|r| (r.page, r.scale, r.image.is_some()))
        .collect();
    assert_eq!(
        told,
        [
            (0, 1000, false),
            (0, 2000, true),
            (1, 1000, false),
            (0, THUMB_SCALE, false),
        ]
    );
    assert!(answers.iter().all(|r| r.engine == Engine::Hayro));
}

#[test]
fn what_goes_was_used_longest_ago() {
    let mut cache = TextureCache::with_budget(TEX_BYTES * 3);
    for page in 0..3 {
        cache.begin_frame();
        cache.insert(page, 1000, page as u64, PX, PX);
    }
    cache.begin_frame();
    assert!(cache.get(0, 1000).is_some());
    assert!(cache.best_effort(1).is_some());
    cache.begin_frame();
    cache.insert(3, 1000, 3, PX, PX);
    assert!(cache.get(2, 1000).is_none(), "neither found nor fallen back on since");
    assert!(cache.get(0, 1000).is_some() && cache.get(1, 1000).is_some());
    assert_eq!(cache.bytes(), TEX_BYTES * 3);
}
