use spinshare::context::{split_tags, tag_url};
use spinshare::home::{current_page, index_tags};
use spinshare::models::upload::{Upload, UploadStatus};
use spinshare::models::upload_comment::{paginated_comments_offset, Timestamp, UploadComment};
use spinshare::routes::queue::{approve_decision, approve_outcome, ApprovalStep, FlashReply};

fn strings(v: &[&str]) -> Vec<String> {
    v.iter().map(|s| s.to_string()).collect()
}

fn upload(status: UploadStatus) -> Upload {
    Upload {
        id: 11,
        status,
        uploader_user_id: None,
        tag_string: String::new(),
        source: None,
        description: String::new(),
    }
}

fn reply_of(step: ApprovalStep) -> FlashReply {
    match step {
        ApprovalStep::Reply(r) => r,
        ApprovalStep::SetStatus { .. } => panic!("expected a reply"),
    }
}

#[test]
fn approval_needs_a_contributor() {
    let r = reply_of(approve_decision(false, Some(upload(UploadStatus::PendingApproval))));
    assert!(!r.success);
    assert_eq!(r.location, "/");
    assert_eq!(r.message, "");
}

#[test]
fn approval_of_missing_upload() {
    let r = reply_of(approve_decision(true, None));
    assert!(!r.success);
    assert_eq!(r.location, "/queue");
    assert_eq!(r.message, "Upload not found.");
}

#[test]
fn approval_completes_pending_upload() {
    match approve_decision(true, Some(upload(UploadStatus::PendingApproval))) {
        ApprovalStep::SetStatus { upload_id, status } => {
            assert_eq!(upload_id, 11);
            assert_eq!(status, UploadStatus::Completed);
        }
        ApprovalStep::Reply(_) => panic!("expected a status change"),
    }
}

#[test]
fn approval_happens_once() {
    for status in [UploadStatus::Completed, UploadStatus::Pending, UploadStatus::Processing, UploadStatus::Deleted] {
        let r = reply_of(approve_decision(true, Some(upload(status))));
        assert!(!r.success);
        assert_eq!(r.location, "/queue");
        assert_eq!(r.message, "Already approved.");
    }
}

#[test]
fn approval_outcomes() {
    let ok = approve_outcome(true);
    assert!(ok.success);
    assert_eq!(ok.location, "/queue");
    assert_eq!(ok.message, "Approved!");
    let failed = approve_outcome(false);
    assert!(!failed.success);
    assert_eq!(failed.location, "/queue");
    assert_eq!(failed.message, "Could not change upload status to Completed.");
}

#[test]
fn template_tags_and_links() {
    assert_eq!(split_tags(" Spinner/A  b\tc "), strings(&["Spinner/A", "b", "c"]));
    assert_eq!(split_tags(""), Vec::<String>::new());
    assert_eq!(tag_url("spinner/foo"), "/?q=spinner/foo");
    assert_eq!(tag_url(""), "/?q=");
}

#[test]
fn page_number_from_query() {
    assert_eq!(current_page(None), 1);
    assert_eq!(current_page(Some("3")), 3);
    assert_eq!(current_page(Some("+4")), 4);
    assert_eq!(current_page(Some("-2")), -2);
    assert_eq!(current_page(Some("abc")), 1);
    assert_eq!(current_page(Some("")), 1);
    assert_eq!(current_page(Some("-")), 1);
    assert_eq!(current_page(Some(" 5")), 1);
    assert_eq!(current_page(Some("9223372036854775807")), i64::MAX);
    assert_eq!(current_page(Some("9223372036854775808")), 1);
    assert_eq!(current_page(Some("-9223372036854775808")), i64::MIN);
}

#[test]
fn front_page_tags_sorted_without_repeats() {
    let tag_strings = strings(&["b a", "c b", "", "B ab a"]);
    assert_eq!(index_tags(&tag_strings), strings(&["B", "a", "ab", "b", "c"]));
    assert_eq!(index_tags(&Vec::new()), Vec::<String>::new());
}

#[test]
fn front_page_tags_match_sort_and_dedup() {
    let tag_strings = strings(&["zeta Alpha émile", "alpha zeta", "Émile x\u{3000}y"]);
    let mut expected: Vec<String> = tag_strings
        .iter()
        .flat_map(|s| s.split_whitespace().map(|w| w.to_string()).collect::<Vec<_>>())
        .collect();
    expected.sort();
    expected.dedup();
    assert_eq!(index_tags(&tag_strings), expected);
}

fn comment(created: Timestamp, updated: Timestamp) -> UploadComment {
    UploadComment {
        id: 5,
        upload_id: 1,
        user_id: 9,
        comment: "hi".to_string(),
        created_at: created,
        updated_at: updated,
    }
}

#[test]
fn comment_edited_when_times_differ() {
    let t = Timestamp { secs: 100, nanos: 0 };
    let later = Timestamp { secs: 100, nanos: 1 };
    assert!(!comment(t, t).is_edited());
    assert!(comment(t, later).is_edited());
}

#[test]
fn comment_author_compares_id() {
    let t = Timestamp { secs: 0, nanos: 0 };
    let c = comment(t, t);
    assert!(c.is_author(5));
    assert!(!c.is_author(9));
}

#[test]
fn comment_page_offsets() {
    assert_eq!(paginated_comments_offset(1, 20), 0);
    assert_eq!(paginated_comments_offset(3, 20), 40);
    assert_eq!(paginated_comments_offset(0, 10), -10);
}
