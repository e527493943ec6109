//! Upload, tag and comment rules of a video-sharing site, verified with Verus.
pub mod text;
pub mod order;
pub mod models;
pub mod services;
pub mod routes;
pub mod context;
pub mod home;
