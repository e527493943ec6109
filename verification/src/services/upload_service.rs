//! Uploads: the tag string they are stored with, new records, the edits of
//! an upload and what those edits write to the audit log, and which tags
//! recommendations go by.
use vstd::prelude::*;
use crate::models::upload::{NewImmediateUpload, PendingUpload, UpdateUpload, Upload, UploadStatus};
use crate::order::{chars_eq, chars_have_prefix, is_prefix};
use crate::services::tag_service::sanitized;
use crate::text::{chars_of, join_with_spaces, joined, lowercase, string_views, utf8_len, words};

verus! {

/// Why an upload operation failed.
#[derive(Clone, Copy, Debug, PartialEq, Eq, Structural)]
pub enum UploadError {
    AlreadyExists,
    DatabaseError,
    NotFound,
}

/// The message of each error.
pub open spec fn error_message(e: UploadError) -> Seq<char> {
    match e {
        UploadError::AlreadyExists => "Upload already exists"@,
        UploadError::DatabaseError => "Error occured in database"@,
        UploadError::NotFound => "Upload was not found"@,
    }
}

impl UploadError {
    /// The text that describes the error.
    pub fn message(&self) -> (res: String)
        ensures
            res@ == error_message(*self),
    {
        match self {
            UploadError::AlreadyExists => "Upload already exists".to_owned(),
            UploadError::DatabaseError => "Error occured in database".to_owned(),
            UploadError::NotFound => "Upload was not found".to_owned(),
        }
    }
}

/// Longest tag, in bytes of UTF-8, that an upload's tag string keeps.
pub const MAX_TAG_BYTES: usize = 60;

/// The tags that an upload's tag string keeps: the lowercased words of at
/// most `MAX_TAG_BYTES` bytes.
pub open spec fn kept_tags(s: Seq<char>) -> Seq<Seq<char>> {
    sanitized(s).filter(short_enough())
}

/// The test that a kept tag passes: at most `MAX_TAG_BYTES` bytes.
pub open spec fn short_enough() -> spec_fn(Seq<char>) -> bool {
    |t: Seq<char>| utf8_len(t) <= MAX_TAG_BYTES
}

proof fn lemma_filter_take_step(s: Seq<Seq<char>>, i: int)
    requires
        0 <= i < s.len(),
    ensures
        s.take(i + 1).filter(short_enough()) == if utf8_len(s[i])
            <= MAX_TAG_BYTES {
            s.take(i).filter(short_enough()).push(s[i])
        } else {
            s.take(i).filter(short_enough())
        },
{
    reveal(Seq::filter);
    assert(s.take(i + 1).drop_last() =~= s.take(i));
}

/// Lowercases the words of a tag string, drops those longer than
/// `MAX_TAG_BYTES` bytes, and joins the rest with single spaces.
pub fn sanitize_tags(tags: &str) -> (res: String)
    ensures
        res@ == joined(kept_tags(tags@)),
{
    let all = crate::services::tag_service::sanitize_tags(tags);
    let ghost s = sanitized(tags@);
    let mut kept: Vec<String> = Vec::new();
    let mut i: usize = 0;
    while i < all.len()
        invariant
            i <= all.len(),
            string_views(all@) == s,
            s == sanitized(tags@),
            string_views(kept@) == s.take(i as int).filter(short_enough()),
        decreases all.len() - i,
    {
        proof {
            lemma_filter_take_step(s, i as int);
        }
        assert(s[i as int] == all@[i as int]@);
        if all[i].as_str().as_bytes().len() <= MAX_TAG_BYTES {
            let ghost old_kept = kept@;
            kept.push(all[i].clone());
            assert(string_views(kept@) =~= string_views(old_kept).push(s[i as int]));
        }
        i = i + 1;
    }
    assert(s.take(all.len() as int) =~= s);
    join_with_spaces(&kept)
}

/// A character of the URL-safe alphabet of generated ids: a letter, a
/// digit, `_` or `-`.
pub open spec fn is_id_char(c: char) -> bool {
    let n: int = c as int;
    ||| 'a' as int <= n <= 'z' as int
    ||| 'A' as int <= n <= 'Z' as int
    ||| '0' as int <= n <= '9' as int
    ||| c == '_'
    ||| c == '-'
}

/// A generated id: 21 characters of the URL-safe alphabet.
pub open spec fn is_generated_id(s: Seq<char>) -> bool {
    s.len() == 21 && forall|i: int| 0 <= i < s.len() ==> is_id_char(#[trigger] s[i])
}

/// `nanoid::format` with nanoid's default random source and its `SAFE`
/// alphabet (what `nanoid!()` expands to). The source pushes alphabet
/// characters, all ASCII, until the string is 21 bytes long; the contract
/// claims that length and alphabet and nothing of which characters come.
/// Like `nanoid!()`, it panics if the operating system cannot supply
/// randomness (`StdRng::from_entropy`), which no argument can rule out.
#[verifier::external_body]
fn generate_id() -> (res: String)
    ensures
        is_generated_id(res@),
{
    nanoid::format(nanoid::rngs::default, &nanoid::alphabet::SAFE, 21)
}

/// The record of an upload that is published at once, with a fresh
/// encoding key and the tag string sanitized.
pub fn build_immediate_upload(
    uploader_user_id: i32,
    file_id: &str,
    file_name: &str,
    file_ext: &str,
    thumbnail_url: &str,
    file_size: i64,
    tag_string: &str,
    source: &str,
    description: &str,
    original_upload_date: chrono::NaiveDate,
) -> (res: NewImmediateUpload)
    ensures
        res.status == UploadStatus::Completed,
        res.file_id@ == file_id@,
        is_generated_id(res.video_encoding_key@),
        res.uploader_user_id == uploader_user_id,
        res.file_name@ == file_name@,
        res.file_ext@ == file_ext@,
        res.thumbnail_url@ == thumbnail_url@,
        res.tag_string@ == joined(kept_tags(tag_string@)),
        res.source@ == source@,
        res.description@ == description@,
        res.original_upload_date == original_upload_date,
        res.file_size == file_size,
{
    let new_tag_string = sanitize_tags(tag_string);
    NewImmediateUpload {
        status: UploadStatus::Completed,
        file_id: file_id.to_owned(),
        video_encoding_key: generate_id(),
        uploader_user_id,
        file_name: file_name.to_owned(),
        file_ext: file_ext.to_owned(),
        thumbnail_url: thumbnail_url.to_owned(),
        tag_string: new_tag_string,
        source: source.to_owned(),
        description: description.to_owned(),
        original_upload_date,
        file_size,
    }
}

/// The record of an upload whose file is still to come, with a fresh file
/// id and a fresh encoding key.
pub fn build_pending_upload(
    uploader_user_id: i32,
    file_name: &str,
    file_ext: &str,
    file_size: i64,
    md5_hash: Option<String>,
) -> (res: PendingUpload)
    ensures
        res.status == UploadStatus::Pending,
        is_generated_id(res.file_id@),
        is_generated_id(res.video_encoding_key@),
        res.uploader_user_id == uploader_user_id,
        res.file_name@ == file_name@,
        res.file_ext@ == file_ext@,
        res.file_size == file_size,
        res.md5_hash == md5_hash,
{
    PendingUpload {
        status: UploadStatus::Pending,
        file_id: generate_id(),
        video_encoding_key: generate_id(),
        uploader_user_id,
        file_name: file_name.to_owned(),
        file_ext: file_ext.to_owned(),
        file_size,
        md5_hash,
    }
}

/// What finishing an upload in status `status` does to its status: a
/// pending upload moves on to processing; any other was finished before.
pub open spec fn finalized_status(status: UploadStatus) -> Result<UploadStatus, UploadError> {
    if status == UploadStatus::Pending {
        Ok(UploadStatus::Processing)
    } else {
        Err(UploadError::AlreadyExists)
    }
}

/// An upload is finished at most once: finishing the result of a finish
/// fails with `AlreadyExists`.
pub proof fn lemma_finalize_once(status: UploadStatus)
    ensures
        finalized_status(status) matches Ok(s) ==> finalized_status(s) == Err::<
            UploadStatus,
            UploadError,
        >(UploadError::AlreadyExists),
{
}

/// The columns that finishing an upload writes, or why it cannot be
/// finished (see `finalized_status`); without an upload, `NotFound`.
pub fn plan_finalize(
    found: Option<Upload>,
    tags: &str,
    source: &str,
    description: &str,
    original_upload_date: Option<chrono::NaiveDate>,
) -> (res: Result<UpdateUpload, UploadError>)
    ensures
        found is None ==> res == Err::<UpdateUpload, UploadError>(UploadError::NotFound),
        found matches Some(u) ==> (finalized_status(u.status) matches Err(e) ==> res == Err::<
            UpdateUpload,
            UploadError,
        >(e)),
        found matches Some(u) ==> (finalized_status(u.status) matches Ok(s) ==> (res matches Ok(
            upd,
        ) && {
            &&& upd.id == u.id
            &&& upd.status == s
            &&& upd.tag_string@ == joined(kept_tags(tags@))
            &&& (upd.source matches Some(src) && src@ == source@)
            &&& upd.description@ == description@
            &&& upd.original_upload_date == original_upload_date
        })),
{
    match found {
        Some(upload) => {
            if upload.status == UploadStatus::Pending {
                Ok(
                    UpdateUpload {
                        id: upload.id,
                        status: UploadStatus::Processing,
                        tag_string: sanitize_tags(tags),
                        source: Some(source.to_owned()),
                        description: description.to_owned(),
                        original_upload_date,
                    },
                )
            } else {
                Err(UploadError::AlreadyExists)
            }
        },
        None => Err(UploadError::NotFound),
    }
}

/// One line of the audit log: a column of a row changed from one value to
/// another by a user.
pub struct AuditEntry {
    pub table_name: String,
    pub column_name: String,
    pub row_id: i32,
    pub user_id: i32,
    pub old_value: String,
    pub new_value: String,
}

/// `e` records that `user_id` changed column `column` of upload `row_id`
/// from `old_value` to `new_value`.
pub open spec fn audits(
    e: AuditEntry,
    column: Seq<char>,
    row_id: i32,
    user_id: i32,
    old_value: Seq<char>,
    new_value: Seq<char>,
) -> bool {
    &&& e.table_name@ == "uploads"@
    &&& e.column_name@ == column
    &&& e.row_id == row_id
    &&& e.user_id == user_id
    &&& e.old_value@ == old_value
    &&& e.new_value@ == new_value
}

/// An edit of a published upload: its new columns and the audit lines it
/// writes, in order.
pub struct UploadEdit {
    pub update: UpdateUpload,
    pub audit: Vec<AuditEntry>,
}

/// What a source that may be missing reads as in the audit log.
pub open spec fn source_text(source: Option<String>) -> Seq<char> {
    match source {
        Some(s) => s@,
        None => Seq::empty(),
    }
}

/// The edit of an upload by `user_id`: the status stays, the tag string is
/// sanitized, and the tag string, source and description changes are
/// audited; without an upload, `NotFound`.
pub fn plan_update(
    found: Option<Upload>,
    user_id: i32,
    tags: &str,
    source: &str,
    description: &str,
    original_upload_date: Option<chrono::NaiveDate>,
) -> (res: Result<UploadEdit, UploadError>)
    ensures
        found is None ==> res == Err::<UploadEdit, UploadError>(UploadError::NotFound),
        found matches Some(u) ==> (res matches Ok(edit) && {
            &&& edit.update.id == u.id
            &&& edit.update.status == u.status
            &&& edit.update.tag_string@ == joined(kept_tags(tags@))
            &&& (edit.update.source matches Some(s) && s@ == source@)
            &&& edit.update.description@ == description@
            &&& edit.update.original_upload_date == original_upload_date
            &&& edit.audit@.len() == 3
            &&& audits(
                edit.audit@[0],
                "tag_string"@,
                u.id,
                user_id,
                u.tag_string@,
                joined(kept_tags(tags@)),
            )
            &&& audits(edit.audit@[1], "source"@, u.id, user_id, source_text(u.source), source@)
            &&& audits(
                edit.audit@[2],
                "description"@,
                u.id,
                user_id,
                u.description@,
                description@,
            )
        }),
{
    match found {
        Some(upload) => {
            let new_tag_string = sanitize_tags(tags);
            let old_source = match upload.source {
                Some(s) => s,
                None => String::new(),
            };
            let mut audit: Vec<AuditEntry> = Vec::new();
            audit.push(
                AuditEntry {
                    table_name: "uploads".to_owned(),
                    column_name: "tag_string".to_owned(),
                    row_id: upload.id,
                    user_id,
                    old_value: upload.tag_string,
                    new_value: new_tag_string.clone(),
                },
            );
            audit.push(
                AuditEntry {
                    table_name: "uploads".to_owned(),
                    column_name: "source".to_owned(),
                    row_id: upload.id,
                    user_id,
                    old_value: old_source,
                    new_value: source.to_owned(),
                },
            );
            audit.push(
                AuditEntry {
                    table_name: "uploads".to_owned(),
                    column_name: "description".to_owned(),
                    row_id: upload.id,
                    user_id,
                    old_value: upload.description,
                    new_value: description.to_owned(),
                },
            );
            Ok(
                UploadEdit {
                    update: UpdateUpload {
                        id: upload.id,
                        status: upload.status,
                        tag_string: new_tag_string,
                        source: Some(source.to_owned()),
                        description: description.to_owned(),
                        original_upload_date,
                    },
                    audit,
                },
            )
        },
        None => Err(UploadError::NotFound),
    }
}

/// Whether recommendations go by the people behind a collaboration video:
/// one of the tags is `type/collaboration_video`.
pub open spec fn is_collaboration(names: Seq<Seq<char>>) -> bool {
    names.contains("type/collaboration_video"@)
}

/// Whether a tag counts for recommendations: for a collaboration video its
/// `editor/` and `organizer/` tags, otherwise its `spinner/` tags.
pub open spec fn counts_for_recommendations(name: Seq<char>, collaboration: bool) -> bool {
    if collaboration {
        is_prefix("editor/"@, name) || is_prefix("organizer/"@, name)
    } else {
        is_prefix("spinner/"@, name)
    }
}

/// The positions, in order, of the tags that recommendations for an upload
/// with these tag names go by. No position means no recommendations.
pub fn recommendation_tag_indices(names: &Vec<String>) -> (res: Vec<usize>)
    ensures
        forall|i: int, j: int| 0 <= i < j < res.len() ==> res@[i] < res@[j],
        forall|i: int| 0 <= i < res.len() ==> res@[i] < names.len(),
        forall|k: int|
            0 <= k < names.len() ==> (res@.contains(k as usize) <==> counts_for_recommendations(
                names@[k]@,
                is_collaboration(string_views(names@)),
            )),
        !string_views(names@).contains("type/collaboration_video"@) ==> forall|k: int|
            0 <= k < names.len() ==> (res@.contains(k as usize) <==> is_prefix(
                "spinner/"@,
                #[trigger] names@[k]@,
            )),
        string_views(names@).contains("type/collaboration_video"@) ==> forall|k: int|
            0 <= k < names.len() ==> (res@.contains(k as usize) <==> (is_prefix(
                "editor/"@,
                #[trigger] names@[k]@,
            ) || is_prefix("organizer/"@, names@[k]@))),
{
    let collaboration_video = chars_of("type/collaboration_video");
    let editor = chars_of("editor/");
    let organizer = chars_of("organizer/");
    let spinner = chars_of("spinner/");
    let ghost views = string_views(names@);
    let mut collaboration = false;
    let mut i: usize = 0;
    while i < names.len()
        invariant
            i <= names.len(),
            views == string_views(names@),
            collaboration_video@ == "type/collaboration_video"@,
            collaboration == views.take(i as int).contains("type/collaboration_video"@),
        decreases names.len() - i,
    {
        let name = chars_of(names[i].as_str());
        let same = chars_eq(&name, &collaboration_video);
        proof {
            let prev = views.take(i as int);
            let next = views.take(i + 1);
            assert(next =~= prev.push(views[i as int]));
            if prev.contains("type/collaboration_video"@) {
                let k = choose|k: int| 0 <= k < prev.len() && prev[k] == "type/collaboration_video"@;
                assert(next[k] == prev[k]);
            }
            if next.contains("type/collaboration_video"@) && !same {
                let k = choose|k: int| 0 <= k < next.len() && next[k] == "type/collaboration_video"@;
                assert(prev[k] == next[k]);
            }
            if same {
                assert(next[i as int] == "type/collaboration_video"@);
            }
        }
        collaboration = collaboration || same;
        i = i + 1;
    }
    assert(views.take(names.len() as int) =~= views);
    let mut res: Vec<usize> = Vec::new();
    let mut j: usize = 0;
    proof {
        lemma_recommendation_tags(views);
    }
    while j < names.len()
        invariant
            j <= names.len(),
            views == string_views(names@),
            collaboration == is_collaboration(views),
            editor@ == "editor/"@,
            organizer@ == "organizer/"@,
            spinner@ == "spinner/"@,
            forall|a: int, b: int| 0 <= a < b < res.len() ==> res@[a] < res@[b],
            forall|a: int| 0 <= a < res.len() ==> res@[a] < j,
            forall|k: int|
                0 <= k < j ==> (res@.contains(k as usize) <==> counts_for_recommendations(
                    names@[k]@,
                    collaboration,
                )),
        decreases names.len() - j,
    {
        let name = chars_of(names[j].as_str());
        let selected = if collaboration {
            chars_have_prefix(&name, &editor) || chars_have_prefix(&name, &organizer)
        } else {
            chars_have_prefix(&name, &spinner)
        };
        let ghost before = res@;
        if selected {
            res.push(j);
        }
        proof {
            assert forall|k: int|
                0 <= k < j + 1 implies (res@.contains(k as usize) <==> counts_for_recommendations(
                names@[k]@,
                collaboration,
            )) by {
                if k < j {
                    if res@.contains(k as usize) {
                        let a = choose|a: int| 0 <= a < res.len() && res@[a] == k as usize;
                        if a < before.len() {
                            assert(before[a] == k as usize);
                        }
                    }
                    if before.contains(k as usize) {
                        let a = choose|a: int| 0 <= a < before.len() && before[a] == k as usize;
                        assert(res@[a] == k as usize);
                    }
                } else {
                    if selected {
                        assert(res@[before.len() as int] == j);
                    } else {
                        if res@.contains(k as usize) {
                            let a = choose|a: int| 0 <= a < res.len() && res@[a] == k as usize;
                        }
                    }
                }
            }
        }
        j = j + 1;
    }
    res
}

} // verus!

verus! {

/// Every tag that an upload's tag string keeps is one of the lowercased
/// words of the input, and at most `MAX_TAG_BYTES` bytes long.
pub proof fn lemma_kept_tags_short(s: Seq<char>)
    ensures
        forall|t: Seq<char>|
            #[trigger] kept_tags(s).contains(t) ==> utf8_len(t) <= MAX_TAG_BYTES && sanitized(
                s,
            ).contains(t),
{
    let all = sanitized(s);
    assert forall|t: Seq<char>| #[trigger] kept_tags(s).contains(t) implies utf8_len(t)
        <= MAX_TAG_BYTES && all.contains(t) by {
        all.lemma_filter_contains_rev(short_enough(), t);
    }
}

} // verus!

verus! {

/// Which tags recommendations go by, stated without `counts_for_recommendations`:
/// for tags that include `type/collaboration_video`, exactly those beginning
/// with `editor/` or `organizer/`; for any other tags, exactly those beginning
/// with `spinner/`.
pub proof fn lemma_recommendation_tags(names: Seq<Seq<char>>)
    ensures
        !names.contains("type/collaboration_video"@) ==> forall|n: Seq<char>|
            #[trigger] counts_for_recommendations(n, is_collaboration(names)) <==> is_prefix(
                "spinner/"@,
                n,
            ),
        names.contains("type/collaboration_video"@) ==> forall|n: Seq<char>|
            #[trigger] counts_for_recommendations(n, is_collaboration(names)) <==> (is_prefix(
                "editor/"@,
                n,
            ) || is_prefix("organizer/"@, n)),
{
}

/// The tags an upload's tag string keeps, stated from the words themselves:
/// each word lowercased, in order, keeping exactly those of at most
/// `MAX_TAG_BYTES` bytes of UTF-8, with no limit on how many.
pub proof fn lemma_kept_tags_are_all_short_tags(s: Seq<char>)
    ensures
        kept_tags(s) == words(s).map_values(|w: Seq<char>| lowercase(w)).filter(
            |t: Seq<char>| vstd::utf8::encode_utf8(t).len() <= 60,
        ),
{
    let a = sanitized(s).filter(short_enough());
    let b = words(s).map_values(|w: Seq<char>| lowercase(w)).filter(
        |t: Seq<char>| vstd::utf8::encode_utf8(t).len() <= 60,
    );
    assert(sanitized(s) =~= words(s).map_values(|w: Seq<char>| lowercase(w)));
    assert(short_enough() =~= (|t: Seq<char>| vstd::utf8::encode_utf8(t).len() <= 60));
}

/// Every lowercased word of at most `MAX_TAG_BYTES` bytes is kept: whatever
/// the number of tags, none that is short enough is dropped.
pub proof fn lemma_kept_tags_complete(s: Seq<char>)
    ensures
        forall|i: int|
            0 <= i < words(s).len() && vstd::utf8::encode_utf8(lowercase(#[trigger] words(s)[i])).len()
                <= 60 ==> kept_tags(s).contains(lowercase(words(s)[i])),
{
    let all = sanitized(s);
    assert forall|i: int|
        0 <= i < words(s).len() && vstd::utf8::encode_utf8(lowercase(#[trigger] words(s)[i])).len()
            <= 60 implies kept_tags(s).contains(lowercase(words(s)[i])) by {
        assert(all[i] == lowercase(words(s)[i]));
        all.lemma_filter_contains(short_enough(), i);
    }
}

} // verus!
