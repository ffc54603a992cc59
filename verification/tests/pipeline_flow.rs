//! End-to-end behaviour of the image pipeline: cache lookups, fetch
//! deduplication, loader completions, and the disk store.

use linn::disk_store::DiskStore;
use linn::image_size::ImageSize;
use linn::pipeline::DisplayDecision;
use linn::pipeline::ImageLoaderEvent;
use linn::pipeline::ImagePipeline;
use linn::url::split_resolved;
use linn::variant_cache::ImageHandle;
use linn::variant_cache::VariantCache;

#[test]
fn resolve_on_empty_cache_shows_placeholder_and_enqueues_once() {
    let mut p = ImagePipeline::new();
    let decision = p.resolve("https://cdn/img.jpg", ImageSize::Small);
    assert_eq!(decision, DisplayDecision::ShowPlaceholder);
    assert_eq!(p.queue_len(), 1);
    let queued = p.next_fetch().unwrap();
    assert_eq!(queued, "https://cdn/img.jpg?param=200x200");
    assert!(p.next_fetch().is_none());
}

#[test]
fn resolve_twice_enqueues_at_most_one_fetch() {
    let mut p = ImagePipeline::new();
    let d1 = p.resolve("https://cdn/img.jpg", ImageSize::Small);
    let d2 = p.resolve("https://cdn/img.jpg", ImageSize::Small);
    assert_eq!(d1, DisplayDecision::ShowPlaceholder);
    assert_eq!(d2, DisplayDecision::ShowPlaceholder);
    assert_eq!(p.queue_len(), 1);
}

#[test]
fn completed_fetch_serves_variant_and_enqueues_nothing() {
    let mut p = ImagePipeline::new();
    let d = p.resolve("https://cdn/img.jpg", ImageSize::Small);
    assert_eq!(d, DisplayDecision::ShowPlaceholder);
    let full = p.next_fetch().unwrap();
    let handle = ImageHandle { id: 7 };
    let ev = p.on_fetch_decoded(full.as_str(), handle);
    assert_eq!(ev, ImageLoaderEvent::ImageLoaded);
    let d2 = p.resolve("https://cdn/img.jpg", ImageSize::Small);
    assert_eq!(d2, DisplayDecision::ShowVariant(handle));
    assert_eq!(p.queue_len(), 0);
}

#[test]
fn pending_small_does_not_dedupe_medium() {
    let mut p = ImagePipeline::new();
    p.resolve("https://cdn/img.jpg", ImageSize::Small);
    assert_eq!(p.queue_len(), 1);
    p.resolve("https://cdn/img.jpg", ImageSize::Medium);
    assert_eq!(p.queue_len(), 2);
    let first = p.next_fetch().unwrap();
    let second = p.next_fetch().unwrap();
    assert_eq!(first, "https://cdn/img.jpg?param=200x200");
    assert_eq!(second, "https://cdn/img.jpg?param=400x400");
}

#[test]
fn failed_fetch_releases_reservation_for_retry() {
    let mut p = ImagePipeline::new();
    p.resolve("https://cdn/img.jpg", ImageSize::Small);
    let full = p.next_fetch().unwrap();
    p.on_fetch_failed(full.as_str());
    // The variant never appeared, so the next render pass re-enqueues.
    let d = p.resolve("https://cdn/img.jpg", ImageSize::Small);
    assert_eq!(d, DisplayDecision::ShowPlaceholder);
    assert_eq!(p.queue_len(), 1);
}

#[test]
fn lower_tier_placeholder_still_schedules_exact_fetch() {
    let mut p = ImagePipeline::new();
    p.resolve("https://cdn/img.jpg", ImageSize::Thumbnail);
    let full = p.next_fetch().unwrap();
    let thumb = ImageHandle { id: 1 };
    p.on_fetch_decoded(full.as_str(), thumb);
    // The thumbnail is served as a stopgap, but the large fetch still goes
    // out because the exact tier is missing.
    let d = p.resolve("https://cdn/img.jpg", ImageSize::Large);
    assert_eq!(d, DisplayDecision::ShowVariant(thumb));
    let queued = p.next_fetch().unwrap();
    assert_eq!(queued, "https://cdn/img.jpg?param=800x800");
}

#[test]
fn best_available_prefers_ceiling_over_floor() {
    let mut c = VariantCache::new();
    let low = ImageHandle { id: 1 };
    let high = ImageHandle { id: 2 };
    c.insert("b", 0, low);
    c.insert("b", 3, high);
    // Requesting rank 1: rank 3 is the only one at or above, so it wins
    // over the blurrier rank 0.
    let v = c.best_available("b", 1).unwrap();
    assert_eq!(v.rank, 3);
    assert_eq!(v.handle, high);
}

#[test]
fn best_available_falls_back_to_highest_below() {
    let mut c = VariantCache::new();
    let low = ImageHandle { id: 1 };
    let mid = ImageHandle { id: 2 };
    c.insert("b", 0, low);
    c.insert("b", 2, mid);
    // Nothing at rank 3 or above: the sharpest below (rank 2) is served.
    let v = c.best_available("b", 3).unwrap();
    assert_eq!(v.rank, 2);
    assert_eq!(v.handle, mid);
    assert!(c.best_available("other", 3).is_none());
}

#[test]
fn has_exact_reflects_inserts_only() {
    let mut c = VariantCache::new();
    assert!(!c.has_exact("b", 1));
    c.insert("b", 1, ImageHandle { id: 5 });
    assert!(c.has_exact("b", 1));
    assert!(!c.has_exact("b", 2));
    assert!(!c.has_exact("b2", 1));
    // Inserting elsewhere never removes exactness.
    c.insert("b2", 2, ImageHandle { id: 6 });
    assert!(c.has_exact("b", 1));
    // Overwriting the same pair keeps it exact and updates the handle.
    c.insert("b", 1, ImageHandle { id: 9 });
    assert!(c.has_exact("b", 1));
    assert_eq!(c.best_available("b", 1).unwrap().handle, ImageHandle { id: 9 });
}

#[test]
fn split_resolved_recovers_base_and_tier() {
    let (base, tier) = split_resolved("https://cdn/img.jpg?param=400x400");
    assert_eq!(base, "https://cdn/img.jpg");
    assert_eq!(tier, ImageSize::Medium);
    let (base2, tier2) = split_resolved("https://cdn/img.jpg?foo=bar&param=800x800");
    assert_eq!(base2, "https://cdn/img.jpg");
    assert_eq!(tier2, ImageSize::Large);
    let (base3, tier3) = split_resolved("https://cdn/img.jpg");
    assert_eq!(base3, "https://cdn/img.jpg");
    assert_eq!(tier3, ImageSize::Original);
    let (_, tier4) = split_resolved("https://cdn/img.jpg?param=bogus");
    assert_eq!(tier4, ImageSize::Original);
}

#[test]
fn disk_store_round_trips_bytes() {
    let mut s = DiskStore::new();
    let key = "https://cdn/img.jpg?param=200x200";
    assert!(s.load(key).is_none());
    s.store(key, vec![1, 2, 3, 255, 0]);
    assert_eq!(s.load(key).unwrap().as_slice(), &[1, 2, 3, 255, 0]);
    // Last writer wins; other keys are untouched.
    s.store("other", vec![9]);
    s.store(key, vec![4, 5]);
    assert_eq!(s.load(key).unwrap().as_slice(), &[4, 5]);
    assert_eq!(s.load("other").unwrap().as_slice(), &[9]);
}

#[test]
fn commit_fetch_prefers_what_is_already_stored() {
    let mut s = DiskStore::new();
    // Miss: the downloaded bytes are stored and returned.
    let first = s.commit_fetch("k", vec![1, 2, 3]);
    assert_eq!(first, vec![1, 2, 3]);
    assert_eq!(s.load("k").unwrap().as_slice(), &[1, 2, 3]);
    // Hit: the stored bytes win and the new download is discarded.
    let second = s.commit_fetch("k", vec![9, 9]);
    assert_eq!(second, vec![1, 2, 3]);
    assert_eq!(s.load("k").unwrap().as_slice(), &[1, 2, 3]);
}

#[test]
fn cache_file_name_is_sha256_hex_with_extension() {
    let name = DiskStore::cache_file_name("http://p1.music.126.net/test.jpg?param=200x200");
    assert_eq!(
        name,
        "3b0ec737540621e08f364388a1847105101ee1d2c7cb54bc482604fbdaac6093.jpg"
    );
}
