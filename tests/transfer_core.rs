use remote_send::bundle::{bundle, find_duplicate_name, unbundle, BundleEntry};
use remote_send::catalog::{
    build_catalog, bytes_at_most, compare_recency, find_latest, recency_at_most, ListedObject,
    Listing, ObjectDetail, Timestamp,
};
use remote_send::error::SyncError;
use remote_send::local::FileDetail;
use remote_send::sync::{
    is_archive_key,    ReceiveAction, ReceiveEvent, ReceiveOp, ReceivePhase, SendAction, SendEvent, SendOp,
    SendPhase,
};
use remote_send::transfer::{Download, PullPhase, StreamAction, StreamEvent};
use std::cmp::Ordering;

fn summary(key: &str, size: u64, secs: i64) -> ObjectDetail {
    ObjectDetail {
        last_modified: Timestamp { secs, nanos: 0 },
        key: key.to_string(),
        size,
        etag: format!("tag-{}", key),
    }
}

fn listed(key: &str, size: u64, time: &str) -> ListedObject {
    ListedObject {
        key: key.to_string(),
        size,
        last_modified: time.to_string(),
        e_tag: Some(format!("\"{}\"", key)),
    }
}

fn entry(name: &str, content: &[u8]) -> BundleEntry {
    BundleEntry { name: name.to_string(), content: content.to_vec() }
}

#[test]
fn latest_skips_empty_objects_and_picks_newest() {
    let objects = vec![summary("a.txt", 0, 100), summary("b.bin", 120, 200), summary("c.bin", 80, 300)];
    let latest = find_latest(&objects).unwrap();
    assert_eq!(latest.key, "c.bin");
    assert_eq!(latest.size, 80);
}

#[test]
fn latest_never_returns_a_zero_size_object() {
    let objects = vec![summary("b.bin", 120, 200), summary("z.txt", 0, 900)];
    assert_eq!(find_latest(&objects).unwrap().key, "b.bin");
}

#[test]
fn latest_of_empty_or_all_zero_input_is_none() {
    assert!(find_latest(&vec![]).is_none());
    let zeros = vec![summary("a", 0, 1), summary("b", 0, 2)];
    assert!(find_latest(&zeros).is_none());
}

#[test]
fn latest_does_not_depend_on_order() {
    let a = vec![summary("x", 5, 10), summary("y", 6, 30), summary("z", 7, 20)];
    let b = vec![summary("z", 7, 20), summary("x", 5, 10), summary("y", 6, 30)];
    let c = vec![summary("y", 6, 30), summary("z", 7, 20), summary("x", 5, 10)];
    assert_eq!(find_latest(&a).unwrap().key, "y");
    assert_eq!(find_latest(&b).unwrap().key, "y");
    assert_eq!(find_latest(&c).unwrap().key, "y");
}

#[test]
fn latest_breaks_time_ties_by_greatest_key() {
    let a = vec![summary("apple", 1, 50), summary("pear", 1, 50), summary("fig", 1, 50)];
    let b = vec![summary("pear", 1, 50), summary("fig", 1, 50), summary("apple", 1, 50)];
    assert_eq!(find_latest(&a).unwrap().key, "pear");
    assert_eq!(find_latest(&b).unwrap().key, "pear");
}

#[test]
fn latest_uses_nanoseconds() {
    let mut early = summary("late-key", 3, 100);
    early.last_modified.nanos = 1;
    let mut later = summary("a-key", 3, 100);
    later.last_modified.nanos = 2;
    assert_eq!(find_latest(&vec![later.clone(), early.clone()]).unwrap().key, "a-key");
    assert_eq!(find_latest(&vec![early, later]).unwrap().key, "a-key");
}

#[test]
fn byte_order_is_lexicographic() {
    assert!(bytes_at_most(b"abc", b"abd"));
    assert!(!bytes_at_most(b"abd", b"abc"));
    assert!(bytes_at_most(b"ab", b"abc"));
    assert!(!bytes_at_most(b"abc", b"ab"));
    assert!(bytes_at_most(b"", b""));
    assert!(bytes_at_most(b"same", b"same"));
}

#[test]
fn recency_comparison() {
    let a = summary("a", 1, 10);
    let b = summary("b", 1, 10);
    let c = summary("a", 1, 11);
    assert_eq!(compare_recency(&a, &b), Ordering::Less);
    assert_eq!(compare_recency(&b, &a), Ordering::Greater);
    assert_eq!(compare_recency(&b, &c), Ordering::Less);
    assert_eq!(compare_recency(&a, &a.clone()), Ordering::Equal);
    assert!(recency_at_most(&a, &c));
    assert!(!recency_at_most(&c, &a));
}

#[test]
fn duplicate_keeps_every_field() {
    let a = summary("k", 42, 7);
    let d = a.duplicate();
    assert_eq!(d.key, "k");
    assert_eq!(d.size, 42);
    assert_eq!(d.etag, "tag-k");
    assert_eq!(d.last_modified, Timestamp { secs: 7, nanos: 0 });
}

#[test]
fn empty_bucket_is_an_error_then_an_upload_is_found() {
    let empty = Listing { group_count: 0, objects: vec![] };
    assert_eq!(build_catalog(&empty).unwrap_err(), SyncError::EmptyBucket);
    let after_upload = Listing {
        group_count: 1,
        objects: vec![listed("photo.jpg", 2048, "2024-05-01T10:00:00Z")],
    };
    let catalog = build_catalog(&after_upload).unwrap();
    assert_eq!(catalog.len(), 1);
    let latest = find_latest(&catalog).unwrap();
    assert_eq!(latest.key, "photo.jpg");
    assert_eq!(latest.size, 2048);
}

#[test]
fn group_without_content_is_an_empty_catalog_not_an_error() {
    let listing = Listing { group_count: 1, objects: vec![listed("marker/", 0, "not a time")] };
    let catalog = build_catalog(&listing).unwrap();
    assert!(catalog.is_empty());
    assert!(find_latest(&catalog).is_none());
}

#[test]
fn catalog_reads_times_exactly() {
    let listing = Listing {
        group_count: 1,
        objects: vec![listed("a", 1, "2024-01-02T03:04:05.250Z")],
    };
    let catalog = build_catalog(&listing).unwrap();
    assert_eq!(catalog[0].last_modified, Timestamp { secs: 1704164645, nanos: 250_000_000 });
    assert_eq!(catalog[0].etag, "\"a\"");
    let epoch = Listing { group_count: 1, objects: vec![listed("e", 1, "1970-01-01T00:00:00Z")] };
    assert_eq!(build_catalog(&epoch).unwrap()[0].last_modified, Timestamp { secs: 0, nanos: 0 });
}

#[test]
fn catalog_filters_empty_objects_and_sorts_ascending() {
    let listing = Listing {
        group_count: 2,
        objects: vec![
            listed("c.bin", 80, "2024-03-03T00:00:00Z"),
            listed("a.txt", 0, "2024-03-01T00:00:00Z"),
            listed("b.bin", 120, "2024-03-02T00:00:00Z"),
            listed("bb.bin", 7, "2024-03-02T00:00:00Z"),
            listed("ab.bin", 7, "2024-03-02T00:00:00Z"),
        ],
    };
    let catalog = build_catalog(&listing).unwrap();
    let keys: Vec<&str> = catalog.iter().map(|o| o.key.as_str()).collect();
    assert_eq!(keys, vec!["ab.bin", "b.bin", "bb.bin", "c.bin"]);
    assert_eq!(find_latest(&catalog).unwrap().key, "c.bin");
}

#[test]
fn catalog_is_the_same_when_listed_again() {
    let listing = Listing {
        group_count: 1,
        objects: vec![
            listed("q", 3, "2024-03-03T00:00:00Z"),
            listed("p", 3, "2024-03-03T00:00:00Z"),
            listed("r", 3, "2023-03-03T00:00:00Z"),
        ],
    };
    let first: Vec<String> = build_catalog(&listing).unwrap().iter().map(|o| o.key.clone()).collect();
    let second: Vec<String> = build_catalog(&listing).unwrap().iter().map(|o| o.key.clone()).collect();
    assert_eq!(first, second);
    assert_eq!(first, vec!["r".to_string(), "p".to_string(), "q".to_string()]);
}

#[test]
fn catalog_rejects_unreadable_metadata() {
    let bad_time = Listing { group_count: 1, objects: vec![listed("x", 5, "yesterday")] };
    assert_eq!(build_catalog(&bad_time).unwrap_err(), SyncError::MalformedListing("x".to_string()));
    let mut no_tag = listed("y", 5, "2024-03-03T00:00:00Z");
    no_tag.e_tag = None;
    let no_tag = Listing { group_count: 1, objects: vec![no_tag] };
    assert_eq!(build_catalog(&no_tag).unwrap_err(), SyncError::MalformedListing("y".to_string()));
}

#[test]
fn download_reports_strictly_increasing_progress_ending_at_size() {
    let mut d = Download::new();
    let mut reported = Vec::new();
    for len in [3usize, 0, 5, 1] {
        match d.step(StreamEvent::Chunk(len)) {
            StreamAction::Report(n) => reported.push(n),
            StreamAction::Continue => assert_eq!(len, 0),
            other => panic!("unexpected action {:?}", other),
        }
    }
    assert_eq!(reported, vec![3, 8, 9]);
    assert!(matches!(d.step(StreamEvent::Ended), StreamAction::Finish(9)));
    assert_eq!(d.phase, PullPhase::Finished);
    assert!(matches!(d.step(StreamEvent::Chunk(4)), StreamAction::Ignore));
    assert_eq!(d.received, 9);
}

#[test]
fn download_of_empty_object_finishes_at_zero() {
    let mut d = Download::new();
    assert!(matches!(d.step(StreamEvent::Ended), StreamAction::Finish(0)));
}

#[test]
fn download_failures_are_told_apart() {
    let mut d = Download::new();
    d.step(StreamEvent::Chunk(10));
    match d.step(StreamEvent::StreamFailed("reset".to_string())) {
        StreamAction::Abort(SyncError::RemoteTransport(m)) => assert_eq!(m, "reset"),
        other => panic!("unexpected action {:?}", other),
    }
    assert_eq!(d.phase, PullPhase::Failed);
    let mut d = Download::new();
    match d.step(StreamEvent::WriteFailed("disk full".to_string())) {
        StreamAction::Abort(SyncError::LocalIo(m)) => assert_eq!(m, "disk full"),
        other => panic!("unexpected action {:?}", other),
    }
    assert!(matches!(d.step(StreamEvent::Ended), StreamAction::Ignore));
}

#[test]
fn bundle_then_unbundle_gives_back_the_files() {
    let files = vec![entry("x.txt", b"first file\n"), entry("y.txt", b"second")];
    let archive = bundle(&files).unwrap();
    assert_ne!(archive, b"first file\nsecond".to_vec());
    assert!(archive.len() > 17);
    let back = unbundle(archive).unwrap();
    assert_eq!(back.len(), 2);
    assert_eq!(back[0].name, "x.txt");
    assert_eq!(back[0].content, b"first file\n".to_vec());
    assert_eq!(back[1].name, "y.txt");
    assert_eq!(back[1].content, b"second".to_vec());
}

#[test]
fn round_trip_keeps_zero_byte_and_binary_files() {
    let big: Vec<u8> = (0..70000u32).map(|i| (i % 251) as u8).collect();
    let files = vec![entry("empty", b""), entry("big.bin", &big), entry("one", b"\x00")];
    let back = unbundle(bundle(&files).unwrap()).unwrap();
    assert_eq!(back.len(), 3);
    for (a, b) in files.iter().zip(back.iter()) {
        assert_eq!(a.name, b.name);
        assert_eq!(a.content, b.content);
    }
}

#[test]
fn bundle_of_no_file_is_an_empty_archive() {
    let archive = bundle(&vec![]).unwrap();
    assert!(!archive.is_empty());
    assert!(unbundle(archive).unwrap().is_empty());
}

#[test]
fn bundle_rejects_duplicate_names() {
    let files = vec![entry("a", b"1"), entry("b", b"2"), entry("a", b"3")];
    assert_eq!(find_duplicate_name(&files), Some(2));
    assert_eq!(bundle(&files).unwrap_err(), SyncError::DuplicateName("a".to_string()));
    assert_eq!(find_duplicate_name(&vec![entry("a", b""), entry("b", b"")]), None);
}

#[test]
fn unbundle_rejects_bytes_that_are_no_archive() {
    assert!(matches!(unbundle(b"not an archive".to_vec()), Err(SyncError::ArchiveRead(_))));
    assert!(matches!(unbundle(vec![]), Err(SyncError::ArchiveRead(_))));
}

#[test]
fn send_of_missing_file_fails_locally_and_never_uploads() {
    let mut op = SendOp::new();
    assert!(matches!(op.step(SendEvent::Begin(1)), SendAction::CheckFiles));
    let missing = SyncError::LocalIo("no such file".to_string());
    match op.step(SendEvent::Checked(Err(missing))) {
        SendAction::Fail(SyncError::LocalIo(m)) => assert_eq!(m, "no such file"),
        other => panic!("unexpected action {:?}", other),
    }
    assert_eq!(op.phase, SendPhase::Failed);
    assert!(matches!(op.step(SendEvent::Checked(Ok(()))), SendAction::Ignore));
    assert!(matches!(op.step(SendEvent::Uploaded(Ok(5))), SendAction::Ignore));
    assert_eq!(op.phase, SendPhase::Failed);
}

#[test]
fn send_of_one_file_uploads_it() {
    let mut op = SendOp::new();
    assert!(matches!(op.step(SendEvent::Begin(1)), SendAction::CheckFiles));
    assert!(matches!(op.step(SendEvent::Checked(Ok(()))), SendAction::Upload));
    assert!(matches!(op.step(SendEvent::Uploaded(Ok(1500))), SendAction::Succeed(1500)));
    assert_eq!(op.phase, SendPhase::Succeeded);
}

#[test]
fn send_of_several_files_bundles_first() {
    let mut op = SendOp::new();
    op.step(SendEvent::Begin(3));
    assert!(matches!(op.step(SendEvent::Checked(Ok(()))), SendAction::Bundle));
    assert!(matches!(op.step(SendEvent::Uploaded(Ok(1))), SendAction::Ignore));
    assert!(matches!(op.step(SendEvent::Bundled(Ok(()))), SendAction::Upload));
    let failure = SyncError::RemoteTransport("403".to_string());
    assert!(matches!(op.step(SendEvent::Uploaded(Err(failure))), SendAction::Fail(SyncError::RemoteTransport(_))));
    assert_eq!(op.phase, SendPhase::Failed);
}

#[test]
fn send_of_nothing_fails() {
    let mut op = SendOp::new();
    assert!(matches!(op.step(SendEvent::Begin(0)), SendAction::Fail(SyncError::NoFiles)));
    assert_eq!(op.phase, SendPhase::Failed);
}

#[test]
fn receive_latest_archive_downloads_then_unbundles() {
    let mut op = ReceiveOp::new();
    assert!(matches!(op.step(ReceiveEvent::Begin(None)), ReceiveAction::FindLatest));
    assert!(matches!(op.step(ReceiveEvent::Resolved(Ok(Some(true)))), ReceiveAction::Download));
    assert!(matches!(op.step(ReceiveEvent::Downloaded(Ok(250))), ReceiveAction::Unbundle));
    assert!(matches!(op.step(ReceiveEvent::Unbundled(Ok(()))), ReceiveAction::Succeed(250)));
    assert_eq!(op.phase, ReceivePhase::Succeeded);
}

#[test]
fn receive_with_nothing_shared_is_not_a_failure() {
    let mut op = ReceiveOp::new();
    op.step(ReceiveEvent::Begin(None));
    assert!(matches!(op.step(ReceiveEvent::Resolved(Ok(None))), ReceiveAction::ReportNothingShared));
    assert_eq!(op.phase, ReceivePhase::NothingShared);
    assert!(matches!(op.step(ReceiveEvent::Downloaded(Ok(1))), ReceiveAction::Ignore));
}

#[test]
fn receive_of_given_object_and_its_failures() {
    let mut op = ReceiveOp::new();
    assert!(matches!(op.step(ReceiveEvent::Begin(Some(false))), ReceiveAction::Download));
    assert!(matches!(op.step(ReceiveEvent::Downloaded(Ok(9))), ReceiveAction::Succeed(9)));
    let mut op = ReceiveOp::new();
    op.step(ReceiveEvent::Begin(None));
    assert!(matches!(
        op.step(ReceiveEvent::Resolved(Err(SyncError::EmptyBucket))),
        ReceiveAction::Fail(SyncError::EmptyBucket)
    ));
    assert_eq!(op.phase, ReceivePhase::Failed);
    let mut op = ReceiveOp::new();
    op.step(ReceiveEvent::Begin(Some(true)));
    op.step(ReceiveEvent::Downloaded(Ok(3)));
    let broken = SyncError::ArchiveRead("bad".to_string());
    assert!(matches!(op.step(ReceiveEvent::Unbundled(Err(broken))), ReceiveAction::Fail(SyncError::ArchiveRead(_))));
}

#[test]
fn default_file_detail_is_empty() {
    let d = FileDetail::default();
    assert_eq!(d.path, "");
    assert_eq!(d.name, "");
    assert_eq!(d.size, 0);
}

#[test]
fn archive_keys_end_in_zip() {
    assert!(is_archive_key("remote-send-1700000000.zip"));
    assert!(is_archive_key(".zip"));
    assert!(!is_archive_key("zip"));
    assert!(!is_archive_key("photo.jpg"));
    assert!(!is_archive_key("archive.zip.txt"));
    assert!(!is_archive_key(""));
}

#[test]
fn bundle_rejects_a_name_too_long_for_the_format() {
    let long = "a".repeat(65536);
    let files = vec![entry("ok.txt", b"1"), entry(&long, b"2")];
    assert_eq!(bundle(&files).unwrap_err(), SyncError::ArchiveWrite(long.clone()));
    let longest = "b".repeat(65535);
    let back = unbundle(bundle(&vec![entry(&longest, b"x")]).unwrap()).unwrap();
    assert_eq!(back[0].name, longest);
}

#[test]
fn round_trip_keeps_non_ascii_names() {
    let files = vec![entry("résumé.txt", b"cv"), entry("日本.bin", b"\xff\x00"), entry("x.txt", b"")];
    let back = unbundle(bundle(&files).unwrap()).unwrap();
    let names: Vec<&str> = back.iter().map(|e| e.name.as_str()).collect();
    assert_eq!(names, vec!["résumé.txt", "日本.bin", "x.txt"]);
    assert_eq!(back[1].content, b"\xff\x00".to_vec());
    assert!(back[2].content.is_empty());
}
