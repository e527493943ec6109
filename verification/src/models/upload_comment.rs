//! Comments on uploads.
use vstd::prelude::*;

verus! {

/// A point in time: seconds since the epoch and the nanoseconds within
/// that second (above a billion during a leap second).
#[derive(Clone, Copy, Debug, PartialEq, Eq, Structural)]
pub struct Timestamp {
    pub secs: i64,
    pub nanos: u32,
}

/// A comment on an upload.
pub struct UploadComment {
    pub id: i64,
    pub upload_id: i32,
    pub user_id: i32,
    pub comment: String,
    pub created_at: Timestamp,
    pub updated_at: Timestamp,
}

/// How many comments the list of recent comments shows.
pub const RECENT_COMMENTS_LIMIT: i64 = 10;

impl UploadComment {
    /// Whether the comment was changed after it was written.
    pub fn is_edited(&self) -> (res: bool)
        ensures
            res == (self.created_at != self.updated_at),
    {
        self.created_at != self.updated_at
    }

    /// Whether the comment's id equals `user_id`.
    pub fn is_author(&self, user_id: i32) -> (res: bool)
        ensures
            res == (self.id == user_id as int),
    {
        self.id == user_id as i64
    }
}

/// How many comments precede page `page` (counted from 1) of a listing with
/// `per_page` comments a page.
pub fn paginated_comments_offset(page: i64, per_page: i64) -> (res: i64)
    requires
        i64::MIN < page,
        i64::MIN <= (page - 1) * per_page <= i64::MAX,
    ensures
        res == (page - 1) * per_page,
{
    (page - 1) * per_page
}

} // verus!
