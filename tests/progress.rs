use media_uploader::shared_state::{InFlightError, SharedState, LOG_CAPACITY};
use media_uploader::upload_status::UploadStatus;

#[test]
fn outcomes_update_counters() {
    let mut s = SharedState::new(7, 2);
    s.set_initial_remaining_files(4);
    s.append_to_processed_files((UploadStatus::Success, "/r/a.mp4".to_string()));
    s.append_to_processed_files((UploadStatus::Skipped, "/r/b.mp4".to_string()));
    s.append_to_processed_files((UploadStatus::Corrupt, "/r/c.mp4".to_string()));
    s.append_to_processed_files((UploadStatus::Failed(Some(500)), "/r/d.mp4".to_string()));
    assert_eq!(s.files_retrieved, 7);
    assert_eq!(s.uploaded_files, 1);
    assert_eq!(s.skipped_files, 1);
    assert_eq!(s.corrupt_files_counter, 1);
    assert_eq!(s.failed_files_counter, 1);
    assert_eq!(s.remaining_files, 0);
    assert_eq!(s.corrupt_files, vec![(UploadStatus::Corrupt, "/r/c.mp4".to_string())]);
    assert_eq!(s.failed_files, vec![(UploadStatus::Failed(Some(500)), "/r/d.mp4".to_string())]);
    assert_eq!(s.last_processed_files.len(), 4);
}

#[test]
fn remaining_reaches_zero_after_every_file() {
    let n = 50u64;
    let mut s = SharedState::new(0, 4);
    s.set_initial_remaining_files(n);
    let outcomes = [UploadStatus::Success, UploadStatus::Skipped, UploadStatus::Corrupt, UploadStatus::Failed(None)];
    for i in 0..n {
        s.append_to_processed_files((outcomes[(i % 4) as usize], format!("/r/{}.mp4", i)));
    }
    assert_eq!(s.remaining_files, 0);
    assert_eq!(s.uploaded_files + s.skipped_files + s.corrupt_files_counter + s.failed_files_counter, n);
}

#[test]
fn log_keeps_latest_entries() {
    let mut s = SharedState::new(0, 1);
    s.set_initial_remaining_files(25);
    for i in 0..25 {
        s.append_to_processed_files((UploadStatus::Success, format!("/r/{}.mp4", i)));
    }
    assert_eq!(s.last_processed_files.len(), LOG_CAPACITY);
    assert_eq!(s.last_processed_files[0].1, "/r/5.mp4");
    assert_eq!(s.last_processed_files[19].1, "/r/24.mp4");
}

#[test]
fn in_flight_never_exceeds_limit() {
    let mut s = SharedState::new(0, 2);
    assert_eq!(s.append_to_currently_uploading("/r/a.mp4".to_string(), 0), Ok(()));
    assert_eq!(s.append_to_currently_uploading("/r/b.mp4".to_string(), 5), Ok(()));
    assert_eq!(s.append_to_currently_uploading("/r/c.mp4".to_string(), 9), Err(InFlightError::Full));
    assert_eq!(s.currently_uploading.len(), 2);
    assert_eq!(s.remove_from_currently_uploading(&"/r/a.mp4".to_string()), Ok(0));
    assert_eq!(s.append_to_currently_uploading("/r/c.mp4".to_string(), 9), Ok(()));
    assert_eq!(s.currently_uploading.len(), 2);
    assert!(s.is_in_flight(&"/r/c.mp4".to_string()));
    assert!(!s.is_in_flight(&"/r/a.mp4".to_string()));
}

#[test]
fn in_flight_paths_are_unique() {
    let mut s = SharedState::new(0, 3);
    assert_eq!(s.append_to_currently_uploading("/r/a.mp4".to_string(), 0), Ok(()));
    assert_eq!(
        s.append_to_currently_uploading("/r/a.mp4".to_string(), 1),
        Err(InFlightError::AlreadyInFlight)
    );
    assert_eq!(s.currently_uploading.len(), 1);
}

#[test]
fn removing_unknown_path_is_refused() {
    let mut s = SharedState::new(0, 3);
    assert_eq!(s.remove_from_currently_uploading(&"/r/a.mp4".to_string()), Err(InFlightError::NotInFlight));
    assert_eq!(s.append_to_currently_uploading("/r/a.mp4".to_string(), 3), Ok(()));
    assert_eq!(s.remove_from_currently_uploading(&"/r/b.mp4".to_string()), Err(InFlightError::NotInFlight));
    assert_eq!(s.currently_uploading.len(), 1);
}

#[test]
fn snapshot_copies_state() {
    let mut s = SharedState::new(3, 2);
    s.set_initial_remaining_files(2);
    assert_eq!(s.append_to_currently_uploading("/r/a.mp4".to_string(), 12), Ok(()));
    s.append_to_processed_files((UploadStatus::Failed(Some(403)), "/r/b.mp4".to_string()));
    let c = s.snapshot();
    assert_eq!(c.remaining_files, 1);
    assert_eq!(c.failed_files_counter, 1);
    assert_eq!(c.currently_uploading, vec![(12, "/r/a.mp4".to_string())]);
    assert_eq!(c.last_processed_files, s.last_processed_files);
    assert_eq!(c.files_retrieved, 3);
}
