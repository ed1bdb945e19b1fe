use media_catalog::file_scanner::{
    extension, FileScanner, ScanBatch, ScanSession, BATCH_SIZE, PROGRESS_INTERVAL,
    RETENTION_SECONDS,
};
use media_catalog::media_cache::{MediaCache, MediaFile};

fn accepted_ext(scanner: &FileScanner, name: &str) -> Option<String> {
    scanner.classify(Some(name)).map(|c| c.extension().to_string())
}

fn feed(scanner: &FileScanner, names: &[String]) -> (Vec<ScanBatch>, u32, u32) {
    let mut session = ScanSession::begin(1_000);
    let mut batches = Vec::new();
    let mut reports = 0u32;
    for name in names {
        let candidate = match scanner.classify(Some(name.as_str())) {
            Some(c) => c,
            None => continue,
        };
        assert!(session.scanned() < u32::MAX);
        let (next, step) = session.accept(candidate, format!("/root/{}", name), 10, 20);
        session = next;
        if let Some(batch) = step.batch {
            batches.push(batch);
        }
        if let Some(progress) = step.progress {
            reports += 1;
            assert_eq!(progress.scanned % PROGRESS_INTERVAL, 0);
            assert_eq!(progress.total, None);
            assert_eq!(progress.current_path, format!("/root/{}", name));
        }
    }
    let summary = session.finish();
    if let Some(batch) = summary.last_batch {
        batches.push(batch);
    }
    (batches, summary.total_batches, reports)
}

#[test]
fn extension_is_what_follows_the_last_dot() {
    assert_eq!(extension("movie.mp4"), Some("mp4"));
    assert_eq!(extension("archive.tar.gz"), Some("gz"));
    assert_eq!(extension("trailing."), Some(""));
    assert_eq!(extension("noext"), None);
    assert_eq!(extension(".bashrc"), None);
    assert_eq!(extension(".hidden.mp4"), Some("mp4"));
    assert_eq!(extension(""), None);
}

#[test]
fn classify_accepts_every_supported_extension() {
    let scanner = FileScanner::new();
    for ext in ["mp4", "avi", "mov", "mkv", "wmv", "flv", "webm", "m4v"] {
        assert_eq!(accepted_ext(&scanner, &format!("clip.{}", ext)), Some(ext.to_string()));
        assert!(scanner.supports(ext));
    }
    assert_eq!(scanner.extensions().len(), 8);
}

#[test]
fn classify_lowercases_the_extension() {
    let scanner = FileScanner::new();
    assert_eq!(accepted_ext(&scanner, "HOLIDAY.MP4"), Some("mp4".to_string()));
    assert_eq!(accepted_ext(&scanner, "Clip.MkV"), Some("mkv".to_string()));
    assert!(!scanner.supports("MP4"));
}

#[test]
fn classify_skips_hidden_and_unsupported_entries() {
    let scanner = FileScanner::new();
    assert!(scanner.classify(Some(".secret.mp4")).is_none());
    assert!(scanner.classify(Some(".git")).is_none());
    assert!(scanner.classify(Some("notes.txt")).is_none());
    assert!(scanner.classify(Some("mp4")).is_none());
    assert!(scanner.classify(Some("clip.mp4.bak")).is_none());
    assert!(scanner.classify(Some("clip.")).is_none());
    assert!(scanner.classify(None).is_none());
}

#[test]
fn accepted_file_has_no_derived_fields_yet() {
    let scanner = FileScanner::new();
    let session = ScanSession::begin(77);
    let candidate = scanner.classify(Some("a.MOV")).unwrap();
    let (session, step) = session.accept(candidate, "/m/a.MOV".to_string(), 123, 456);
    assert_eq!(step.batch, None);
    assert_eq!(step.progress, None);
    assert_eq!(session.scanned(), 1);
    let summary = session.finish();
    assert_eq!(summary.total_batches, 1);
    let batch = summary.last_batch.unwrap();
    assert_eq!(batch.batch_index, 0);
    assert_eq!(batch.total_batches, None);
    assert_eq!(
        batch.files,
        vec![MediaFile {
            path: "/m/a.MOV".to_string(),
            mtime: 456,
            size: 123,
            ext: "mov".to_string(),
            duration: None,
            width: None,
            height: None,
            codec: None,
            thumb: None,
            last_seen: 77,
        }]
    );
}

#[test]
fn empty_scan_hands_out_no_batch() {
    let summary = ScanSession::begin(5).finish();
    assert_eq!(summary.last_batch, None);
    assert_eq!(summary.total_batches, 0);
}

#[test]
fn scan_reports_supported_files_in_batches_of_200() {
    let scanner = FileScanner::new();
    let mut names = Vec::new();
    for i in 0..450 {
        names.push(format!("clip{}.mp4", i));
        if i % 3 == 0 {
            names.push(format!("notes{}.txt", i));
        }
        if i % 7 == 0 {
            names.push(format!(".hidden{}.mp4", i));
        }
    }
    let (batches, total, reports) = feed(&scanner, &names);
    assert_eq!(total, 3);
    assert_eq!(batches.len(), 3);
    assert_eq!(batches[0].files.len(), BATCH_SIZE);
    assert_eq!(batches[1].files.len(), 200);
    assert_eq!(batches[2].files.len(), 50);
    assert_eq!(reports, 9);
    let mut seen = 0usize;
    for (index, batch) in batches.iter().enumerate() {
        assert_eq!(batch.batch_index as usize, index);
        for file in &batch.files {
            assert_eq!(file.path, format!("/root/clip{}.mp4", seen));
            assert_eq!(file.ext, "mp4");
            assert_eq!(file.last_seen, 1_000);
            seen += 1;
        }
    }
    assert_eq!(seen, 450);
}

#[test]
fn scan_of_exactly_one_full_batch_has_no_partial_batch() {
    let scanner = FileScanner::new();
    let names: Vec<String> = (0..200).map(|i| format!("v{}.webm", i)).collect();
    let (batches, total, reports) = feed(&scanner, &names);
    assert_eq!(total, 1);
    assert_eq!(batches.len(), 1);
    assert_eq!(batches[0].files.len(), 200);
    assert_eq!(reports, 4);
}

#[test]
fn scan_of_201_files_has_two_batches() {
    let scanner = FileScanner::new();
    let names: Vec<String> = (0..201).map(|i| format!("v{}.avi", i)).collect();
    let (batches, total, _) = feed(&scanner, &names);
    assert_eq!(total, 2);
    assert_eq!(batches[1].files.len(), 1);
    assert_eq!(batches[1].batch_index, 1);
}

#[test]
fn progress_is_reported_at_the_fiftieth_file() {
    let scanner = FileScanner::new();
    let mut session = ScanSession::begin(0);
    for i in 1..=50u32 {
        let candidate = scanner.classify(Some("x.flv")).unwrap();
        let (next, step) = session.accept(candidate, format!("/p/{}", i), 1, 1);
        session = next;
        if i < 50 {
            assert_eq!(step.progress, None);
        } else {
            let progress = step.progress.unwrap();
            assert_eq!(progress.scanned, 50);
            assert_eq!(progress.current_path, "/p/50");
        }
    }
}

fn row(path: &str, ext: &str, last_seen: u64) -> MediaFile {
    MediaFile {
        path: path.to_string(),
        mtime: 1,
        size: 2,
        ext: ext.to_string(),
        duration: None,
        width: None,
        height: None,
        codec: None,
        thumb: None,
        last_seen,
    }
}

#[test]
fn cached_files_default_to_the_supported_extensions() {
    let scanner = FileScanner::new();
    let mut cache = MediaCache::new();
    cache.upsert_media_batch(&[
        row("/a.mp4", "mp4", 10),
        row("/b.txt", "txt", 30),
        row("/c.mkv", "mkv", 20),
    ]);
    let all = scanner.get_cached_files(&cache, None, None, None);
    let paths: Vec<&str> = all.iter().map(|f| f.path.as_str()).collect();
    assert_eq!(paths, vec!["/c.mkv", "/a.mp4"]);
    let only = scanner.get_cached_files(&cache, Some(vec!["txt".to_string()]), None, None);
    assert_eq!(only.len(), 1);
    assert_eq!(only[0].path, "/b.txt");
}

#[test]
fn cleanup_removes_files_unseen_for_seven_days() {
    let scanner = FileScanner::new();
    let mut cache = MediaCache::new();
    let now = 10_000_000u64;
    assert_eq!(RETENTION_SECONDS, 7 * 24 * 60 * 60);
    cache.upsert_media_batch(&[
        row("/old.mp4", "mp4", now - RETENTION_SECONDS - 1),
        row("/edge.mp4", "mp4", now - RETENTION_SECONDS),
        row("/new.mp4", "mp4", now),
    ]);
    scanner.cleanup_old_files_at(&mut cache, now);
    assert_eq!(cache.len(), 2);
    assert!(cache.get("/old.mp4").is_none());
    assert!(cache.get("/edge.mp4").is_some());
    assert!(cache.get("/new.mp4").is_some());
}

#[test]
fn cleanup_before_the_retention_has_passed_removes_nothing() {
    let scanner = FileScanner::new();
    let mut cache = MediaCache::new();
    cache.upsert_media_batch(&[row("/a.mp4", "mp4", 0)]);
    scanner.cleanup_old_files_at(&mut cache, 100);
    assert_eq!(cache.len(), 1);
}

#[test]
fn cleanup_by_the_clock_keeps_files_seen_now() {
    let scanner = FileScanner::new();
    let mut cache = MediaCache::new();
    let now = media_catalog::media_cache::current_timestamp();
    cache.upsert_media_batch(&[row("/a.mp4", "mp4", now), row("/b.mp4", "mp4", 0)]);
    scanner.cleanup_old_files(&mut cache);
    assert!(cache.get("/a.mp4").is_some());
    assert!(cache.get("/b.mp4").is_none());
}

#[test]
fn classify_entry_judges_name_and_extension_apart() {
    let scanner = FileScanner::new();
    let ext = |name: Option<&str>, extension: Option<&str>| {
        scanner.classify_entry(name, extension).map(|c| c.extension().to_string())
    };
    assert_eq!(ext(Some("clip.MP4"), Some("MP4")), Some("mp4".to_string()));
    // A name that is not Unicode text hides nothing; the extension decides.
    assert_eq!(ext(None, Some("mkv")), Some("mkv".to_string()));
    assert_eq!(ext(None, Some("txt")), None);
    assert_eq!(ext(None, None), None);
    assert_eq!(ext(Some("clip.mp4"), None), None);
    assert_eq!(ext(Some(".hidden.mp4"), Some("mp4")), None);
    assert_eq!(ext(Some(""), Some("webm")), Some("webm".to_string()));
}

#[test]
fn classify_agrees_with_classify_entry_on_names() {
    let scanner = FileScanner::new();
    for name in ["a.mp4", "A.MOV", ".a.mp4", "a", "a.", "a.txt", "a.b.m4v", ""] {
        let whole = scanner.classify(Some(name)).map(|c| c.extension().to_string());
        let parts = scanner
            .classify_entry(Some(name), extension(name))
            .map(|c| c.extension().to_string());
        assert_eq!(whole, parts);
    }
}
