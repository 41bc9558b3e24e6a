use media_uploader::config::Config;
use media_uploader::file_traversal::{next_stage, read_file, FileEvent, FileStage};
use media_uploader::file_utils::{compute_hash_of_partial_file, compute_md5_hash, to_hex, CHUNK_SIZE};
use media_uploader::remote_index::{parse_u64, DedupClass, RemoteIndex};
use media_uploader::upload_status::UploadStatus;

fn some(s: &str) -> Option<String> {
    Some(s.to_string())
}

#[test]
fn md5_of_known_inputs() {
    assert_eq!(compute_md5_hash(&Vec::new()), "d41d8cd98f00b204e9800998ecf8427e");
    assert_eq!(compute_md5_hash(&b"abc".to_vec()), "900150983cd24fb0d6963f7d28e17f72");
}

#[test]
fn hex_encoding() {
    assert_eq!(to_hex(&vec![0x00, 0x0f, 0xa0, 0xff]), "000fa0ff");
    assert_eq!(to_hex(&Vec::new()), "");
}

#[test]
fn fingerprint_of_small_file_covers_it_whole() {
    assert_eq!(compute_hash_of_partial_file(&b"abc".to_vec(), 3), "8a8b3aea9e3ca257a31cf91db6d6ba12");
    assert_eq!(
        compute_hash_of_partial_file(&b"hello world".to_vec(), 1000),
        "9d070f9ac64e7839123c4eea401c8f23"
    );
}

#[test]
fn fingerprint_of_large_file_covers_its_first_chunk() {
    let big: Vec<u8> = (0..CHUNK_SIZE + 10).map(|i| (i % 251) as u8).collect();
    assert_eq!(compute_hash_of_partial_file(&big, 131082), "3a0fc1d61528ec73c991f974613aa3d2");
    assert_eq!(compute_hash_of_partial_file(&big, 999999), "178b2979e62a0946845f3961764b3526");
    let mut other = big.clone();
    other[CHUNK_SIZE + 5] = 7;
    assert_eq!(compute_hash_of_partial_file(&other, 999999), "178b2979e62a0946845f3961764b3526");
}

#[test]
fn fingerprint_is_deterministic() {
    let content: Vec<u8> = (0..5000).map(|i| (i * 7 % 256) as u8).collect();
    let a = compute_hash_of_partial_file(&content, 5000);
    let b = compute_hash_of_partial_file(&content.clone(), 5000);
    assert_eq!(a, b);
    assert_ne!(a, compute_hash_of_partial_file(&content, 5001));
}

#[test]
fn parse_sizes() {
    assert_eq!(parse_u64("0"), Some(0));
    assert_eq!(parse_u64("1234"), Some(1234));
    assert_eq!(parse_u64("+42"), Some(42));
    assert_eq!(parse_u64("18446744073709551615"), Some(u64::MAX));
    assert_eq!(parse_u64("18446744073709551616"), None);
    assert_eq!(parse_u64(""), None);
    assert_eq!(parse_u64("+"), None);
    assert_eq!(parse_u64("-1"), None);
    assert_eq!(parse_u64("12a"), None);
    assert_eq!(parse_u64(" 12"), None);
}

#[test]
fn index_from_rows() {
    let rows = vec![
        (some("100"), some("aaa")),
        (some("100"), some("bbb")),
        (some("200"), some("ccc")),
        (None, some("ddd")),
        (some("300"), None),
        (some("x"), some("eee")),
    ];
    let index = RemoteIndex::from_rows(&rows);
    assert_eq!(index.size_count(), 2);
    assert!(index.contains_size(100));
    assert!(index.contains_size(200));
    assert!(!index.contains_size(300));
    assert_eq!(index.buckets.get(&100), Some(&vec!["aaa".to_string(), "bbb".to_string()]));
}

#[test]
fn unknown_size_is_new_whatever_the_fingerprint() {
    let mut index = RemoteIndex::new();
    index.insert(100, "aaa".to_string());
    assert_eq!(index.classify(5, &"aaa".to_string()), DedupClass::New);
    assert_eq!(index.classify(5, &"zzz".to_string()), DedupClass::New);
}

#[test]
fn matching_size_and_fingerprint_is_duplicate() {
    let mut index = RemoteIndex::new();
    index.insert(100, "aaa".to_string());
    index.insert(100, "bbb".to_string());
    assert_eq!(index.classify(100, &"bbb".to_string()), DedupClass::Duplicate);
    assert_eq!(index.classify(100, &"aaa".to_string()), DedupClass::Duplicate);
    assert_eq!(index.classify(100, &"ccc".to_string()), DedupClass::New);
}

#[test]
fn stages_of_a_duplicate() {
    let mut index = RemoteIndex::new();
    index.insert(100, "aaa".to_string());
    let s = next_stage(&index, FileStage::Discovered, &FileEvent::Size(100));
    assert_eq!(s, FileStage::SizeMatched(100));
    let s = next_stage(&index, s, &FileEvent::Fingerprint("aaa".to_string()));
    assert_eq!(s, FileStage::Finished(UploadStatus::Skipped));
}

#[test]
fn stages_of_a_corrupt_file() {
    let index = RemoteIndex::new();
    let s = next_stage(&index, FileStage::Discovered, &FileEvent::Size(100));
    assert_eq!(s, FileStage::IntegrityPending);
    let s = next_stage(&index, s, &FileEvent::Integrity(false));
    assert_eq!(s, FileStage::Finished(UploadStatus::Corrupt));
}

#[test]
fn stages_of_a_failed_upload() {
    let index = RemoteIndex::new();
    let s = next_stage(&index, FileStage::UploadPending, &FileEvent::Response(Some(500)));
    assert_eq!(s, FileStage::Finished(UploadStatus::Failed(Some(500))));
    let s = next_stage(&index, FileStage::UploadPending, &FileEvent::Response(None));
    assert_eq!(s, FileStage::Finished(UploadStatus::Failed(None)));
}

#[test]
fn unexpected_event_keeps_stage() {
    let index = RemoteIndex::new();
    let s = next_stage(&index, FileStage::Discovered, &FileEvent::Integrity(true));
    assert_eq!(s, FileStage::Discovered);
    let done = FileStage::Finished(UploadStatus::Success);
    assert_eq!(next_stage(&index, done, &FileEvent::Size(1)), done);
}

fn run_file(index: &RemoteIndex, size: u64, fingerprint: &str, status: Option<u16>) -> Vec<FileStage> {
    let mut stages = vec![FileStage::Discovered];
    let mut stage = FileStage::Discovered;
    loop {
        let event = match stage {
            FileStage::Discovered => FileEvent::Size(size),
            FileStage::SizeMatched(_) => FileEvent::Fingerprint(fingerprint.to_string()),
            FileStage::IntegrityPending => FileEvent::Integrity(true),
            FileStage::UploadPending => FileEvent::Response(status),
            FileStage::Finished(_) => break,
        };
        stage = next_stage(index, stage, &event);
        stages.push(stage);
    }
    stages
}

#[test]
fn end_to_end_two_new_files() {
    let rows = vec![(some("2048"), some("0123456789abcdef0123456789abcdef"))];
    let index = RemoteIndex::from_rows(&rows);
    let users = vec!["Alice".to_string()];

    let first = run_file(&index, 1000, "unused", Some(201));
    assert_eq!(
        first,
        vec![
            FileStage::Discovered,
            FileStage::IntegrityPending,
            FileStage::UploadPending,
            FileStage::Finished(UploadStatus::Success)
        ]
    );
    let d1 = read_file("/root/Alice/action/clip1.mp4", "/root", &users, Vec::new()).unwrap();
    assert_eq!(d1.username, "Alice");
    assert_eq!(d1.tags, vec!["action".to_string()]);

    let content = vec![9u8; 2048];
    let fp = compute_hash_of_partial_file(&content, 2048);
    assert_ne!(fp, "0123456789abcdef0123456789abcdef");
    let second = run_file(&index, 2048, &fp, Some(201));
    assert_eq!(
        second,
        vec![
            FileStage::Discovered,
            FileStage::SizeMatched(2048),
            FileStage::IntegrityPending,
            FileStage::UploadPending,
            FileStage::Finished(UploadStatus::Success)
        ]
    );
    let d2 = read_file("/root/clip2.avi", "/root", &users, content).unwrap();
    assert_eq!(d2.username, "Default_Uploader");
    assert!(d2.tags.is_empty());
}

#[test]
fn concurrency_limit_setting() {
    let c = Config { accepted_users: Vec::new(), number_of_threads: 4 };
    assert_eq!(c.concurrency_limit(), Some(4));
    let c = Config { accepted_users: Vec::new(), number_of_threads: 0 };
    assert_eq!(c.concurrency_limit(), None);
    let c = Config { accepted_users: Vec::new(), number_of_threads: -3 };
    assert_eq!(c.concurrency_limit(), None);
}
