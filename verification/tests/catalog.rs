use media_catalog::media_cache::{MediaCache, MediaFile, Seconds};

fn file(path: &str, ext: &str, last_seen: u64) -> MediaFile {
    MediaFile {
        path: path.to_string(),
        mtime: 100,
        size: 200,
        ext: ext.to_string(),
        duration: None,
        width: None,
        height: None,
        codec: None,
        thumb: None,
        last_seen,
    }
}

fn paths(files: &[MediaFile]) -> Vec<String> {
    files.iter().map(|f| f.path.clone()).collect()
}

fn exts(list: &[&str]) -> Vec<String> {
    list.iter().map(|e| e.to_string()).collect()
}

#[test]
fn new_catalog_is_empty() {
    let cache = MediaCache::new();
    assert_eq!(cache.len(), 0);
    assert!(cache.get("/a.mp4").is_none());
    assert!(cache.get_media_by_ext(&exts(&["mp4"]), None, None).is_empty());
}

#[test]
fn upsert_twice_leaves_one_row_with_the_latest_values() {
    let mut cache = MediaCache::new();
    let first = file("/a.mp4", "mp4", 10);
    cache.upsert_media_batch(&[first.clone()]);
    cache.upsert_media_batch(&[first.clone()]);
    assert_eq!(cache.len(), 1);
    assert_eq!(cache.get("/a.mp4"), Some(first));
    let mut later = file("/a.mp4", "mp4", 99);
    later.size = 777;
    later.width = Some(1920);
    cache.upsert_media_batch(&[later.clone()]);
    assert_eq!(cache.len(), 1);
    assert_eq!(cache.get("/a.mp4"), Some(later));
}

#[test]
fn upsert_of_one_path_twice_in_a_batch_keeps_the_later_file() {
    let mut cache = MediaCache::new();
    let mut second = file("/a.mp4", "mp4", 20);
    second.size = 5;
    cache.upsert_media_batch(&[file("/a.mp4", "mp4", 10), file("/b.mp4", "mp4", 10), second.clone()]);
    assert_eq!(cache.len(), 2);
    assert_eq!(cache.get("/a.mp4"), Some(second));
}

#[test]
fn upsert_replaces_derived_fields_too() {
    let mut cache = MediaCache::new();
    cache.upsert_media_batch(&[file("/a.mp4", "mp4", 10)]);
    cache.update_heavy_fields("/a.mp4", Some(Seconds { bits: 7 }), Some(1), Some(2), Some("h264".to_string()));
    cache.upsert_media_batch(&[file("/a.mp4", "mp4", 11)]);
    let row = cache.get("/a.mp4").unwrap();
    assert_eq!(row.duration, None);
    assert_eq!(row.codec, None);
    assert_eq!(row.last_seen, 11);
}

#[test]
fn update_heavy_fields_sets_the_four_fields_of_one_row() {
    let mut cache = MediaCache::new();
    cache.upsert_media_batch(&[file("/a.mp4", "mp4", 10), file("/b.mp4", "mp4", 20)]);
    let bits = 12.5f64.to_bits();
    cache.update_heavy_fields("/a.mp4", Some(Seconds { bits }), Some(1280), Some(720), Some("hevc".to_string()));
    let a = cache.get("/a.mp4").unwrap();
    assert_eq!(a.duration.map(|d| f64::from_bits(d.bits)), Some(12.5));
    assert_eq!(a.width, Some(1280));
    assert_eq!(a.height, Some(720));
    assert_eq!(a.codec.as_deref(), Some("hevc"));
    assert_eq!(a.last_seen, 10);
    assert_eq!(cache.get("/b.mp4"), Some(file("/b.mp4", "mp4", 20)));
    cache.update_heavy_fields("/a.mp4", None, None, None, None);
    assert_eq!(cache.get("/a.mp4"), Some(file("/a.mp4", "mp4", 10)));
}

#[test]
fn update_heavy_fields_never_creates_a_row() {
    let mut cache = MediaCache::new();
    cache.upsert_media_batch(&[file("/a.mp4", "mp4", 10)]);
    cache.update_heavy_fields("/missing.mp4", None, Some(1), Some(2), None);
    cache.record_thumbnail("/missing.mp4", "/t/x.jpg".to_string());
    assert_eq!(cache.len(), 1);
    assert!(cache.get("/missing.mp4").is_none());
    assert_eq!(cache.get("/a.mp4"), Some(file("/a.mp4", "mp4", 10)));
}

#[test]
fn record_thumbnail_sets_the_thumb_of_one_row() {
    let mut cache = MediaCache::new();
    cache.upsert_media_batch(&[file("/a.mp4", "mp4", 10), file("/b.mp4", "mp4", 20)]);
    cache.record_thumbnail("/b.mp4", "/thumbs/k.jpg".to_string());
    assert_eq!(cache.get("/b.mp4").unwrap().thumb.as_deref(), Some("/thumbs/k.jpg"));
    assert_eq!(cache.get("/a.mp4").unwrap().thumb, None);
}

#[test]
fn query_lists_most_recently_seen_first() {
    let mut cache = MediaCache::new();
    cache.upsert_media_batch(&[
        file("/a.mp4", "mp4", 10),
        file("/b.mkv", "mkv", 30),
        file("/c.mp4", "mp4", 20),
        file("/d.txt", "txt", 40),
        file("/e.mp4", "mp4", 30),
    ]);
    let all = cache.get_media_by_ext(&exts(&["mp4", "mkv"]), None, None);
    assert_eq!(paths(&all), vec!["/b.mkv", "/e.mp4", "/c.mp4", "/a.mp4"]);
    let mp4 = cache.get_media_by_ext(&exts(&["mp4"]), None, None);
    assert_eq!(paths(&mp4), vec!["/e.mp4", "/c.mp4", "/a.mp4"]);
    assert!(cache.get_media_by_ext(&exts(&[]), None, None).is_empty());
    assert!(cache.get_media_by_ext(&exts(&["MP4"]), None, None).is_empty());
}

#[test]
fn query_pages_with_limit_and_offset() {
    let mut cache = MediaCache::new();
    let mut batch = Vec::new();
    for i in 0..10u64 {
        batch.push(file(&format!("/f{}.mp4", i), "mp4", i));
    }
    cache.upsert_media_batch(&batch);
    let e = exts(&["mp4"]);
    assert_eq!(paths(&cache.get_media_by_ext(&e, Some(3), None)), vec!["/f9.mp4", "/f8.mp4", "/f7.mp4"]);
    assert_eq!(paths(&cache.get_media_by_ext(&e, Some(3), Some(2))), vec!["/f7.mp4", "/f6.mp4", "/f5.mp4"]);
    assert_eq!(paths(&cache.get_media_by_ext(&e, Some(5), Some(8))), vec!["/f1.mp4", "/f0.mp4"]);
    assert!(cache.get_media_by_ext(&e, Some(5), Some(10)).is_empty());
    assert!(cache.get_media_by_ext(&e, Some(5), Some(4_000_000_000)).is_empty());
    assert!(cache.get_media_by_ext(&e, Some(0), None).is_empty());
    assert_eq!(cache.get_media_by_ext(&e, Some(u32::MAX), Some(1)).len(), 9);
    assert_eq!(cache.get_media_by_ext(&e, None, Some(4)).len(), 10);
}

#[test]
fn cleanup_removes_rows_seen_before_the_cutoff() {
    let mut cache = MediaCache::new();
    cache.upsert_media_batch(&[
        file("/a.mp4", "mp4", 10),
        file("/b.mp4", "mp4", 20),
        file("/c.mp4", "mp4", 30),
    ]);
    cache.cleanup_old_entries(20);
    assert_eq!(cache.len(), 2);
    assert!(cache.get("/a.mp4").is_none());
    assert!(cache.get("/b.mp4").is_some());
    cache.cleanup_old_entries(0);
    assert_eq!(cache.len(), 2);
    cache.cleanup_old_entries(u64::MAX);
    assert_eq!(cache.len(), 0);
}

#[test]
fn media_file_clone_is_equal() {
    let mut f = file("/a.mp4", "mp4", 10);
    f.codec = Some("vp9".to_string());
    f.thumb = Some("/t.jpg".to_string());
    f.duration = Some(Seconds { bits: 1 });
    assert_eq!(f.clone(), f);
}
