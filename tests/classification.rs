use media_uploader::file_extension::FileExtension;
use media_uploader::file_traversal::{read_file, PathError};
use media_uploader::path_data::PathData;
use media_uploader::upload_status::UploadStatus;

fn users(names: &[&str]) -> Vec<String> {
    names.iter().map(|n| n.to_string()).collect()
}

#[test]
fn extension_kinds() {
    assert_eq!(FileExtension::from("/data/a/clip.mp4"), FileExtension::Mp4);
    assert_eq!(FileExtension::from("/data/a/clip.avi"), FileExtension::Avi);
    assert_eq!(FileExtension::from("clip.mpeg"), FileExtension::Mpeg);
    assert_eq!(FileExtension::from("clip.ogv"), FileExtension::Ogv);
    assert_eq!(FileExtension::from("clip.webm"), FileExtension::Webm);
    assert_eq!(FileExtension::from("clip.mov"), FileExtension::Mov);
    assert_eq!(FileExtension::from("clip.wmv"), FileExtension::Wmv);
}

#[test]
fn extension_ignores_ascii_case() {
    assert_eq!(FileExtension::from("/data/CLIP.MP4"), FileExtension::Mp4);
    assert_eq!(FileExtension::from("/data/clip.WebM"), FileExtension::Webm);
}

#[test]
fn extension_unknown_or_missing() {
    assert_eq!(FileExtension::from("/data/notes.txt"), FileExtension::Unknown);
    assert_eq!(FileExtension::from("/data/README"), FileExtension::Unknown);
    assert_eq!(FileExtension::from("/data/.mp4"), FileExtension::Unknown);
    assert_eq!(FileExtension::from("/data/clip.mp4/"), FileExtension::Unknown);
    assert_eq!(FileExtension::from("/data.mp4/clip"), FileExtension::Unknown);
    assert_eq!(FileExtension::from(""), FileExtension::Unknown);
}

#[test]
fn extension_mime_types() {
    assert_eq!(FileExtension::Mp4.mime_type(), "video/mp4");
    assert_eq!(FileExtension::Avi.mime_type(), "video/x-msvideo");
    assert_eq!(FileExtension::Mpeg.mime_type(), "video/mpeg");
    assert_eq!(FileExtension::Ogv.mime_type(), "video/ogg");
    assert_eq!(FileExtension::Webm.mime_type(), "video/webm");
    assert_eq!(FileExtension::Mov.mime_type(), "video/quicktime");
    assert_eq!(FileExtension::Wmv.mime_type(), "video/x-ms-wmv");
    assert_eq!(FileExtension::Unknown.mime_type(), "");
}

#[test]
fn accepted_owner_and_tags() {
    let d = read_file("/data/Alice/action/clip1.mp4", "/data", &users(&["Alice"]), vec![1, 2, 3]).unwrap();
    assert_eq!(d.username, "Alice");
    assert_eq!(d.tags, vec!["action".to_string()]);
    assert_eq!(d.filename, "clip1.mp4");
    assert_eq!(d.absolute_path, "/data/Alice/action/clip1.mp4");
    assert_eq!(d.relative_path, "/Alice/action/clip1.mp4");
    assert_eq!(d.mime_type, "video/mp4");
    assert_eq!(d.file_buffer, vec![1, 2, 3]);
}

#[test]
fn unaccepted_first_segment_is_dropped() {
    let d = read_file("/data/Bob/action/clip2.mp4", "/data", &users(&["Alice"]), Vec::new()).unwrap();
    assert_eq!(d.username, "Default_Uploader");
    assert_eq!(d.tags, vec!["action".to_string()]);
    assert_eq!(d.filename, "clip2.mp4");
}

#[test]
fn root_with_trailing_separator() {
    let d = read_file("/data/Alice/action/clip1.mp4", "/data/", &users(&["Alice"]), Vec::new()).unwrap();
    assert_eq!(d.username, "Alice");
    assert_eq!(d.tags, vec!["action".to_string()]);
}

#[test]
fn tags_are_lower_cased() {
    let d = read_file("/data/Alice/Action/Sub Dir/clip.MOV", "/data", &users(&["Alice"]), Vec::new()).unwrap();
    assert_eq!(d.tags, vec!["action".to_string(), "sub dir".to_string()]);
    assert_eq!(d.mime_type, "video/quicktime");
}

#[test]
fn file_in_root_has_default_owner() {
    let d = read_file("/data/clip2.avi", "/data", &users(&["clip2.avi"]), Vec::new()).unwrap();
    assert_eq!(d.username, "Default_Uploader");
    assert!(d.tags.is_empty());
    assert_eq!(d.filename, "clip2.avi");
    assert_eq!(d.mime_type, "video/x-msvideo");
}

#[test]
fn owner_without_tags() {
    let d = read_file("/data/Alice/clip.webm", "/data", &users(&["Alice"]), Vec::new()).unwrap();
    assert_eq!(d.username, "Alice");
    assert!(d.tags.is_empty());
}

#[test]
fn path_outside_root() {
    let r = read_file("/other/Alice/clip.mp4", "/data", &users(&["Alice"]), Vec::new());
    assert_eq!(r.err(), Some(PathError::OutsideRoot));
}

#[test]
fn path_without_file_name() {
    let r = read_file("/data//", "/data", &users(&[]), Vec::new());
    assert_eq!(r.err(), Some(PathError::NoFileName));
}

#[test]
fn description_joins_tags() {
    let d = PathData {
        absolute_path: String::new(),
        relative_path: String::new(),
        filename: "clip.mp4".to_string(),
        username: "Alice".to_string(),
        tags: vec!["action".to_string(), "sport".to_string()],
        mime_type: "video/mp4".to_string(),
        file_buffer: Vec::new(),
    };
    assert_eq!(d.description(), "action,sport");
    assert_eq!(d.credential_key(), "ALICE_PASSWORD");
}

#[test]
fn description_of_no_tags_is_empty() {
    let d = read_file("/data/clip.mp4", "/data", &users(&[]), Vec::new()).unwrap();
    assert_eq!(d.description(), "");
    assert_eq!(d.credential_key(), "DEFAULT_UPLOADER_PASSWORD");
}

#[test]
fn outcome_of_responses() {
    assert_eq!(UploadStatus::from_response(Some(201)), UploadStatus::Success);
    assert_eq!(UploadStatus::from_response(Some(200)), UploadStatus::Failed(Some(200)));
    assert_eq!(UploadStatus::from_response(Some(500)), UploadStatus::Failed(Some(500)));
    assert_eq!(UploadStatus::from_response(None), UploadStatus::Failed(None));
}

#[test]
fn outcome_labels() {
    assert_eq!(UploadStatus::Skipped.get_str(), "SKIPPED");
    assert_eq!(UploadStatus::Corrupt.get_str(), "CORRUPTED");
    assert_eq!(UploadStatus::Success.get_str(), "SUCCESS");
    assert_eq!(UploadStatus::Failed(Some(404)).get_str(), "404");
    assert_eq!(UploadStatus::Failed(Some(0)).get_str(), "0");
    assert_eq!(UploadStatus::Failed(None).get_str(), "NO RESPONSE");
    assert!(UploadStatus::Failed(None).is_failed());
    assert!(!UploadStatus::Success.is_failed());
}
