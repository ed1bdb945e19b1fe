use media_catalog::media_cache::Seconds;
use media_catalog::probe_cache::{ProbeCache, ProbeRecord};

fn record(path: &str, size_bytes: u64, mtime_ns: u64, probed_at: u64) -> ProbeRecord {
    ProbeRecord {
        path: path.to_string(),
        size_bytes,
        mtime_ns,
        probed_at,
        duration_sec: Some(Seconds { bits: 3.5f64.to_bits() }),
        video_codec: Some("h264".to_string()),
        audio_codec: Some("aac".to_string()),
        width: Some(1920),
        height: Some(1080),
        fps_num: Some(30000),
        fps_den: Some(1001),
        sample_rate: Some(48000),
        channels: Some(2),
        json_path: None,
        deep_ready: false,
    }
}

#[test]
fn lookup_hits_only_when_path_size_and_mtime_match() {
    let mut cache = ProbeCache::new();
    let r = record("/a.mp4", 1000, 5_000_000_000, 50);
    cache.save_probe_cache(&r);
    assert_eq!(cache.check_probe_cache("/a.mp4", 1000, 5_000_000_000), Some(r));
    assert_eq!(cache.check_probe_cache("/a.mp4", 1001, 5_000_000_000), None);
    assert_eq!(cache.check_probe_cache("/a.mp4", 1000, 5_000_000_001), None);
    assert_eq!(cache.check_probe_cache("/b.mp4", 1000, 5_000_000_000), None);
    assert_eq!(cache.check_probe_cache("/A.mp4", 1000, 5_000_000_000), None);
}

#[test]
fn lookup_in_an_empty_cache_misses() {
    let cache = ProbeCache::new();
    assert_eq!(cache.len(), 0);
    assert_eq!(cache.check_probe_cache("/a.mp4", 0, 0), None);
    assert!(cache.get_all_probe_cache().is_empty());
}

#[test]
fn save_replaces_the_record_of_the_path() {
    let mut cache = ProbeCache::new();
    cache.save_probe_cache(&record("/a.mp4", 1, 1, 10));
    cache.save_probe_cache(&record("/b.mp4", 1, 1, 20));
    let mut newer = record("/a.mp4", 2, 3, 30);
    newer.deep_ready = true;
    newer.json_path = Some("/cache/a.json".to_string());
    cache.save_probe_cache(&newer);
    assert_eq!(cache.len(), 2);
    assert_eq!(cache.check_probe_cache("/a.mp4", 1, 1), None);
    assert_eq!(cache.check_probe_cache("/a.mp4", 2, 3), Some(newer));
}

#[test]
fn list_all_gives_the_newest_probe_first() {
    let mut cache = ProbeCache::new();
    cache.save_probe_cache(&record("/a.mp4", 1, 1, 10));
    cache.save_probe_cache(&record("/b.mp4", 1, 1, 30));
    cache.save_probe_cache(&record("/c.mp4", 1, 1, 20));
    cache.save_probe_cache(&record("/d.mp4", 1, 1, 30));
    let all = cache.get_all_probe_cache();
    let paths: Vec<&str> = all.iter().map(|r| r.path.as_str()).collect();
    assert_eq!(paths, vec!["/b.mp4", "/d.mp4", "/c.mp4", "/a.mp4"]);
}

#[test]
fn cleanup_removes_records_probed_before_the_cutoff() {
    let mut cache = ProbeCache::new();
    cache.save_probe_cache(&record("/a.mp4", 1, 1, 10));
    cache.save_probe_cache(&record("/b.mp4", 1, 1, 20));
    cache.save_probe_cache(&record("/c.mp4", 1, 1, 30));
    cache.cleanup_stale_entries(20);
    assert_eq!(cache.len(), 2);
    assert_eq!(cache.check_probe_cache("/a.mp4", 1, 1), None);
    assert!(cache.check_probe_cache("/b.mp4", 1, 1).is_some());
    assert!(cache.check_probe_cache("/c.mp4", 1, 1).is_some());
}

#[test]
fn probe_record_clone_is_equal() {
    let r = record("/a.mp4", 1, 2, 3);
    assert_eq!(r.clone(), r);
}
