pub mod upload;
pub mod upload_comment;
