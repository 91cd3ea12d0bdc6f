use dho_vault::cache::{thumbnail_cache_size, ThumbnailCache, ThumbnailCacheKey, VerifiedAssetThumbnail};
use dho_vault::client::VIEWER_CATEGORY_PAGE_SIZE;
use dho_vault::session::{ViewerSession, ViewerSessionError};

fn test_thumbnail(icon_id: u32, data_url_bytes: usize) -> VerifiedAssetThumbnail {
    VerifiedAssetThumbnail {
        archive: "sb".to_owned(),
        icon_id: Some(icon_id),
        block_index: icon_id,
        source_width: 1,
        source_height: 1,
        thumbnail_width: 1,
        thumbnail_height: 1,
        assembled: false,
        thumbnail_data_url: "x".repeat(data_url_bytes),
    }
}

fn test_thumbnail_key(icon_id: u32) -> ThumbnailCacheKey {
    ThumbnailCacheKey {
        prefix: "sb".to_owned(),
        icon_id,
        canonical_block: icon_id,
        assembled: false,
    }
}

#[test]
fn thumbnail_cache_evicts_the_least_recently_used_item() {
    let mut cache = ThumbnailCache::with_limits(2, usize::MAX);
    let first = test_thumbnail_key(1);
    let second = test_thumbnail_key(2);
    let third = test_thumbnail_key(3);
    cache.insert(first.clone(), test_thumbnail(1, 1));
    cache.insert(second.clone(), test_thumbnail(2, 1));

    assert_eq!(cache.get(&first).expect("first thumbnail").icon_id, Some(1));
    cache.insert(third.clone(), test_thumbnail(3, 1));

    assert!(cache.get(&second).is_none());
    assert!(cache.get(&first).is_some());
    assert!(cache.get(&third).is_some());
    assert_eq!(cache.len(), 2);
}

#[test]
fn thumbnail_cache_enforces_its_byte_limit() {
    let item_size = thumbnail_cache_size(&test_thumbnail(1, 4));
    let mut cache = ThumbnailCache::with_limits(10, item_size * 2);
    let first = test_thumbnail_key(1);
    let second = test_thumbnail_key(2);
    let third = test_thumbnail_key(3);
    cache.insert(first.clone(), test_thumbnail(1, 4));
    cache.insert(second.clone(), test_thumbnail(2, 4));
    assert_eq!(cache.total_bytes(), item_size * 2);

    cache.insert(third.clone(), test_thumbnail(3, 4));

    assert!(cache.get(&first).is_none());
    assert!(cache.get(&second).is_some());
    assert!(cache.get(&third).is_some());
    assert_eq!(cache.total_bytes(), item_size * 2);
}

#[test]
fn thumbnail_cache_does_not_store_an_oversized_item() {
    let thumbnail = test_thumbnail(1, 4);
    let mut cache = ThumbnailCache::with_limits(10, thumbnail_cache_size(&thumbnail) - 1);
    let key = test_thumbnail_key(1);

    cache.insert(key.clone(), thumbnail);

    assert!(cache.get(&key).is_none());
    assert_eq!(cache.total_bytes(), 0);
}

#[test]
fn a_cached_thumbnail_is_returned_unchanged() {
    let mut cache = ThumbnailCache::default();
    let key = test_thumbnail_key(7);
    cache.insert(key.clone(), test_thumbnail(7, 3));

    assert_eq!(cache.get(&key), Some(test_thumbnail(7, 3)));
    assert_eq!(cache.len(), 1);

    cache.clear();
    assert_eq!(cache.len(), 0);
    assert_eq!(cache.total_bytes(), 0);
}

#[test]
fn reinserting_a_key_replaces_its_thumbnail() {
    let mut cache = ThumbnailCache::with_limits(4, usize::MAX);
    let key = test_thumbnail_key(1);
    cache.insert(key.clone(), test_thumbnail(1, 2));
    cache.insert(key.clone(), test_thumbnail(1, 5));

    assert_eq!(cache.len(), 1);
    assert_eq!(
        cache.get(&key).expect("replaced thumbnail").thumbnail_data_url,
        "xxxxx"
    );
    assert_eq!(cache.total_bytes(), thumbnail_cache_size(&test_thumbnail(1, 5)));
}

#[test]
fn viewer_session_clears_thumbnails_only_when_the_directory_changes() {
    let mut session = ViewerSession::default();
    session.set_resource_directory("first");
    let key = test_thumbnail_key(1);
    session.cache_thumbnail(key.clone(), test_thumbnail(1, 1));

    session.set_resource_directory("first");
    assert!(session.cached_thumbnail(&key).is_some());

    session.set_resource_directory("second");
    assert!(session.cached_thumbnail(&key).is_none());
    assert_eq!(session.cached_thumbnail_bytes(), 0);
    assert_eq!(session.resource_directory(), Some("second"));
}

#[test]
fn enforces_the_viewer_category_page_size() {
    let mut session = ViewerSession::default();
    let category = ["장비".to_owned()];

    let error = session
        .category_page(&category, 0, VIEWER_CATEGORY_PAGE_SIZE + 1)
        .unwrap_err();

    assert!(matches!(
        error,
        ViewerSessionError::InvalidPageSize {
            requested,
            maximum: VIEWER_CATEGORY_PAGE_SIZE,
        } if requested == VIEWER_CATEGORY_PAGE_SIZE + 1
    ));
}

#[test]
fn a_page_without_a_chosen_directory_is_refused() {
    let mut session = ViewerSession::new();
    let category = ["장비".to_owned()];

    let error = session.category_page(&category, 0, 1).unwrap_err();

    assert!(matches!(error, ViewerSessionError::ResourceDirectoryNotSelected));
}
