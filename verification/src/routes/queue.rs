//! The approval queue: what approving an upload does, and what the
//! contributor is told.
use vstd::prelude::*;
use crate::models::upload::{Upload, UploadStatus};

verus! {

/// A one-time message shown after a redirect.
pub struct FlashReply {
    /// Whether the message reports success (otherwise an error).
    pub success: bool,
    /// Where the browser is sent.
    pub location: String,
    pub message: String,
}

/// `r` redirects to `location` with `message`, as a success or an error.
pub open spec fn replies(r: FlashReply, success: bool, location: Seq<char>, message: Seq<char>) -> bool {
    &&& r.success == success
    &&& r.location@ == location
    &&& r.message@ == message
}

/// The status that approving an upload in status `status` gives it, if
/// approving it does anything.
pub open spec fn approved_status(status: UploadStatus) -> Option<UploadStatus> {
    if status == UploadStatus::PendingApproval {
        Some(UploadStatus::Completed)
    } else {
        None
    }
}

/// What to do when a user asks to approve an upload.
pub enum ApprovalStep {
    /// Answer at once.
    Reply(FlashReply),
    /// Set the upload's status to `status`, then answer with
    /// `approve_outcome` on whether that worked.
    SetStatus { upload_id: i32, status: UploadStatus },
}

fn reply(success: bool, location: &str, message: &str) -> (res: FlashReply)
    ensures
        replies(res, success, location@, message@),
{
    FlashReply { success, location: location.to_owned(), message: message.to_owned() }
}

/// The first step of approving `found` (the upload looked up by its file
/// id) for a user who is or is not a contributor.
pub fn approve_decision(is_contributor: bool, found: Option<Upload>) -> (res: ApprovalStep)
    ensures
        !is_contributor ==> (res matches ApprovalStep::Reply(r) && replies(r, false, "/"@, ""@)),
        is_contributor && found is None ==> (res matches ApprovalStep::Reply(r) && replies(
            r,
            false,
            "/queue"@,
            "Upload not found."@,
        )),
        is_contributor ==> (found matches Some(u) ==> (approved_status(u.status) matches Some(
            s,
        ) ==> res == ApprovalStep::SetStatus { upload_id: u.id, status: s })),
        is_contributor ==> (found matches Some(u) ==> (approved_status(u.status) is None ==> (
        res matches ApprovalStep::Reply(r) && replies(r, false, "/queue"@, "Already approved."@)))),
{
    if !is_contributor {
        return ApprovalStep::Reply(reply(false, "/", ""));
    }
    match found {
        None => ApprovalStep::Reply(reply(false, "/queue", "Upload not found.")),
        Some(upload) => {
            if upload.status == UploadStatus::PendingApproval {
                ApprovalStep::SetStatus { upload_id: upload.id, status: UploadStatus::Completed }
            } else {
                ApprovalStep::Reply(reply(false, "/queue", "Already approved."))
            }
        },
    }
}

/// The answer once the status change was tried.
pub fn approve_outcome(status_changed: bool) -> (res: FlashReply)
    ensures
        status_changed ==> replies(res, true, "/queue"@, "Approved!"@),
        !status_changed ==> replies(
            res,
            false,
            "/queue"@,
            "Could not change upload status to Completed."@,
        ),
{
    if status_changed {
        reply(true, "/queue", "Approved!")
    } else {
        reply(false, "/queue", "Could not change upload status to Completed.")
    }
}

/// An upload is approved at most once: the status that approval gives is
/// one that approval leaves alone.
pub proof fn lemma_approval_once(status: UploadStatus)
    ensures
        approved_status(status) matches Some(s) ==> approved_status(s) is None,
{
}

} // verus!
