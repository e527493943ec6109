pub mod tag_service;
pub mod upload_service;
