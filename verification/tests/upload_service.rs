use chrono::NaiveDate;
use spinshare::models::upload::{Upload, UploadStatus};
use spinshare::services::upload_service::{
    build_immediate_upload, build_pending_upload, plan_finalize, plan_update,
    recommendation_tag_indices, sanitize_tags, UploadError, MAX_TAG_BYTES,
};

fn strings(v: &[&str]) -> Vec<String> {
    v.iter().map(|s| s.to_string()).collect()
}

fn upload(status: UploadStatus) -> Upload {
    Upload {
        id: 7,
        status,
        uploader_user_id: Some(3),
        tag_string: "old tags".to_string(),
        source: None,
        description: "old description".to_string(),
    }
}

fn is_generated(id: &str) -> bool {
    id.chars().count() == 21
        && id.chars().all(|c| c.is_ascii_alphanumeric() || c == '_' || c == '-')
}

#[test]
fn tag_string_is_lowercased_and_joined() {
    assert_eq!(sanitize_tags("  Spinner/Foo\tTYPE/Video  bar "), "spinner/foo type/video bar");
    assert_eq!(sanitize_tags(""), "");
    assert_eq!(sanitize_tags(" \n "), "");
}

#[test]
fn long_tags_are_dropped() {
    let sixty = "a".repeat(60);
    let sixty_one = "B".repeat(61);
    let input = format!("x {} {} y", sixty, sixty_one);
    assert_eq!(sanitize_tags(&input), format!("x {} y", sixty));
    assert_eq!(MAX_TAG_BYTES, 60);
}

#[test]
fn tag_length_counts_bytes() {
    let thirty = "é".repeat(30);
    let thirty_one = "é".repeat(31);
    assert_eq!(sanitize_tags(&format!("{} {}", thirty, thirty_one)), thirty);
    assert_eq!(sanitize_tags(&"É".repeat(30)), thirty);
}

#[test]
fn error_messages() {
    assert_eq!(UploadError::AlreadyExists.message(), "Upload already exists");
    assert_eq!(UploadError::DatabaseError.message(), "Error occured in database");
    assert_eq!(UploadError::NotFound.message(), "Upload was not found");
}

#[test]
fn immediate_upload_record() {
    let date = NaiveDate::from_ymd_opt(2021, 3, 4).unwrap();
    let u = build_immediate_upload(5, "fid", "clip", "mp4", "thumb.jpg", 1234, "A b", "src", "desc", date);
    assert_eq!(u.status, UploadStatus::Completed);
    assert_eq!(u.file_id, "fid");
    assert!(is_generated(&u.video_encoding_key));
    assert_eq!(u.uploader_user_id, 5);
    assert_eq!(u.file_name, "clip");
    assert_eq!(u.file_ext, "mp4");
    assert_eq!(u.thumbnail_url, "thumb.jpg");
    assert_eq!(u.tag_string, "a b");
    assert_eq!(u.source, "src");
    assert_eq!(u.description, "desc");
    assert_eq!(u.original_upload_date, date);
    assert_eq!(u.file_size, 1234);
}

#[test]
fn pending_upload_record() {
    let p = build_pending_upload(9, "name", "webm", 77, Some("abc".to_string()));
    assert_eq!(p.status, UploadStatus::Pending);
    assert!(is_generated(&p.file_id));
    assert!(is_generated(&p.video_encoding_key));
    assert_eq!(p.uploader_user_id, 9);
    assert_eq!(p.file_name, "name");
    assert_eq!(p.file_ext, "webm");
    assert_eq!(p.file_size, 77);
    assert_eq!(p.md5_hash, Some("abc".to_string()));
    let q = build_pending_upload(9, "name", "webm", 77, None);
    assert_eq!(q.md5_hash, None);
}

#[test]
fn finalize_moves_pending_to_processing() {
    let date = NaiveDate::from_ymd_opt(2020, 1, 2);
    let upd = plan_finalize(Some(upload(UploadStatus::Pending)), "X y", "yt", "d", date).unwrap();
    assert_eq!(upd.id, 7);
    assert_eq!(upd.status, UploadStatus::Processing);
    assert_eq!(upd.tag_string, "x y");
    assert_eq!(upd.source, Some("yt".to_string()));
    assert_eq!(upd.description, "d");
    assert_eq!(upd.original_upload_date, date);
}

#[test]
fn finalize_refuses_other_states() {
    for status in [UploadStatus::Processing, UploadStatus::PendingApproval, UploadStatus::Completed, UploadStatus::Deleted] {
        assert_eq!(plan_finalize(Some(upload(status)), "", "", "", None).err(), Some(UploadError::AlreadyExists));
    }
    assert_eq!(plan_finalize(None, "", "", "", None).err(), Some(UploadError::NotFound));
}

#[test]
fn finalize_happens_once() {
    let upd = plan_finalize(Some(upload(UploadStatus::Pending)), "a", "s", "d", None).unwrap();
    let again = plan_finalize(Some(upload(upd.status)), "a", "s", "d", None);
    assert_eq!(again.err(), Some(UploadError::AlreadyExists));
}

#[test]
fn update_keeps_status_and_audits_changes() {
    let mut u = upload(UploadStatus::Completed);
    u.source = Some("old source".to_string());
    let edit = plan_update(Some(u), 42, "New  TAGS", "new source", "new description", None).unwrap();
    assert_eq!(edit.update.id, 7);
    assert_eq!(edit.update.status, UploadStatus::Completed);
    assert_eq!(edit.update.tag_string, "new tags");
    assert_eq!(edit.update.source, Some("new source".to_string()));
    assert_eq!(edit.update.description, "new description");
    assert_eq!(edit.audit.len(), 3);
    let cols: Vec<&str> = edit.audit.iter().map(|e| e.column_name.as_str()).collect();
    assert_eq!(cols, vec!["tag_string", "source", "description"]);
    for e in &edit.audit {
        assert_eq!(e.table_name, "uploads");
        assert_eq!(e.row_id, 7);
        assert_eq!(e.user_id, 42);
    }
    assert_eq!(edit.audit[0].old_value, "old tags");
    assert_eq!(edit.audit[0].new_value, "new tags");
    assert_eq!(edit.audit[1].old_value, "old source");
    assert_eq!(edit.audit[1].new_value, "new source");
    assert_eq!(edit.audit[2].old_value, "old description");
    assert_eq!(edit.audit[2].new_value, "new description");
}

#[test]
fn update_of_missing_source_audits_empty_text() {
    let edit = plan_update(Some(upload(UploadStatus::Pending)), 1, "", "s", "d", None).unwrap();
    assert_eq!(edit.update.status, UploadStatus::Pending);
    assert_eq!(edit.audit[1].old_value, "");
    assert_eq!(plan_update(None, 1, "", "", "", None).err().map(|e| e), Some(UploadError::NotFound));
}

#[test]
fn recommendations_follow_spinners() {
    let names = strings(&["spinner/a", "type/solo", "spinner/b", "editor/c", "spinnerx"]);
    assert_eq!(recommendation_tag_indices(&names), vec![0, 2]);
}

#[test]
fn recommendations_of_collaboration_follow_organizers() {
    let names = strings(&["spinner/a", "organizer/o", "type/collaboration_video", "editor/e", "editor"]);
    assert_eq!(recommendation_tag_indices(&names), vec![1, 3]);
}

#[test]
fn no_recommendation_tags() {
    assert_eq!(recommendation_tag_indices(&Vec::new()), Vec::<usize>::new());
    assert_eq!(recommendation_tag_indices(&strings(&["type/collaboration_video"])), Vec::<usize>::new());
}
