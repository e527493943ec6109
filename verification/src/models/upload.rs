//! The upload records that the services and routes decide on.
use vstd::prelude::*;

verus! {

/// `chrono::NaiveDate`, carried through unread.
#[verifier::external_type_specification]
#[verifier::external_body]
pub struct ExNaiveDate(chrono::NaiveDate);

/// Where an upload stands in its life cycle.
#[derive(Clone, Copy, Debug, PartialEq, Eq, Structural)]
pub enum UploadStatus {
    /// Created; the file is still being uploaded.
    Pending,
    /// The file is uploaded and waits for encoding.
    Processing,
    /// Waits for a contributor to approve it.
    PendingApproval,
    /// Published.
    Completed,
    /// Removed.
    Deleted,
}

/// The fields of a stored upload that the decisions read.
pub struct Upload {
    pub id: i32,
    pub status: UploadStatus,
    pub uploader_user_id: Option<i32>,
    pub tag_string: String,
    pub source: Option<String>,
    pub description: String,
}

/// The new column values of an upload that is being edited.
pub struct UpdateUpload {
    pub id: i32,
    pub status: UploadStatus,
    pub tag_string: String,
    pub source: Option<String>,
    pub description: String,
    pub original_upload_date: Option<chrono::NaiveDate>,
}

/// An upload that is published at once.
pub struct NewImmediateUpload {
    pub status: UploadStatus,
    pub file_id: String,
    pub video_encoding_key: String,
    pub uploader_user_id: i32,
    pub file_name: String,
    pub file_ext: String,
    pub thumbnail_url: String,
    pub tag_string: String,
    pub source: String,
    pub description: String,
    pub original_upload_date: chrono::NaiveDate,
    pub file_size: i64,
}

/// An upload whose file is still to come.
pub struct PendingUpload {
    pub status: UploadStatus,
    pub file_id: String,
    pub video_encoding_key: String,
    pub uploader_user_id: i32,
    pub file_name: String,
    pub file_ext: String,
    pub file_size: i64,
    pub md5_hash: Option<String>,
}

} // verus!
