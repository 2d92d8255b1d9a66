//! The smaller records users work on: errors they resolve and tag, feature
//! requests, bug reports and tags, and the answers when one is missing.
use vstd::prelude::*;
use crate::aggregate::ErrorRecord;
use crate::errors::{QueryError, ServerError};

verus! {

/// An error looked up by id exists (else `ErrorNotFound`).
pub fn check_error_found(found: bool) -> (r: Result<(), ServerError>)
    ensures
        found ==> r is Ok,
        !found ==> r == Err::<(), ServerError>(ServerError::QueryError(QueryError::ErrorNotFound)),
{
    if found {
        Ok(())
    } else {
        Err(ServerError::QueryError(QueryError::ErrorNotFound))
    }
}

/// An error after an update: resolved as asked (unchanged when not asked),
/// stamped `now`.
pub fn apply_error_update(e: ErrorRecord, resolved: Option<bool>, now: i64) -> (r: ErrorRecord)
    ensures
        r.resolved == match resolved {
            Some(b) => b,
            None => e.resolved,
        },
        r.updated_at == now,
        r.id == e.id && r.user_affected == e.user_affected && r.path == e.path && r.line == e.line
            && r.message == e.message && r.stack_trace == e.stack_trace
            && r.namespace_id == e.namespace_id && r.created_at == e.created_at,
{
    let mut r = e;
    if let Some(b) = resolved {
        r.resolved = b;
    }
    r.updated_at = now;
    r
}

/// A tag to attach to an error.
#[derive(Debug, Clone)]
pub struct TagRecord {
    pub id: u128,
    pub tag_key: String,
    pub tag_value: String,
    pub error_id: u128,
    pub tag_color: String,
}

/// The tags an update attaches: one per tag asked for, in order, each with
/// its fresh id and on the updated error.
pub fn new_tag_records(tags: Vec<(String, String, String)>, ids: &Vec<u128>, error_id: u128) -> (r: Vec<TagRecord>)
    requires
        ids@.len() == tags@.len(),
    ensures
        r@.len() == tags@.len(),
        forall|i: int| 0 <= i < r@.len() ==> {
            &&& (#[trigger] r@[i]).id == ids@[i]
            &&& r@[i].tag_key == tags@[i].0
            &&& r@[i].tag_value == tags@[i].1
            &&& r@[i].tag_color == tags@[i].2
            &&& r@[i].error_id == error_id
        },
{
    let mut r: Vec<TagRecord> = Vec::new();
    let mut i: usize = 0;
    let n = tags.len();
    while i < n
        invariant
            n == tags@.len(),
            ids@.len() == n,
            i <= n,
            r@.len() == i,
            forall|k: int| 0 <= k < i ==> {
                &&& (#[trigger] r@[k]).id == ids@[k]
                &&& r@[k].tag_key == tags@[k].0
                &&& r@[k].tag_value == tags@[k].1
                &&& r@[k].tag_color == tags@[k].2
                &&& r@[k].error_id == error_id
            },
        decreases n - i,
    {
        let t = &tags[i];
        r.push(TagRecord {
            id: ids[i],
            tag_key: t.0.clone(),
            tag_value: t.1.clone(),
            error_id,
            tag_color: t.2.clone(),
        });
        i = i + 1;
    }
    r
}

/// A feature request looked up by id exists (else `FeatureRequestNotFound`).
pub fn check_feature_request_found(found: bool) -> (r: Result<(), ServerError>)
    ensures
        found ==> r is Ok,
        !found ==> r == Err::<(), ServerError>(ServerError::QueryError(QueryError::FeatureRequestNotFound)),
{
    if found {
        Ok(())
    } else {
        Err(ServerError::QueryError(QueryError::FeatureRequestNotFound))
    }
}

/// A bug report looked up by id exists (else `NotFound`).
pub fn check_bug_report_found(found: bool) -> (r: Result<(), ServerError>)
    ensures
        found ==> r is Ok,
        !found ==> r == Err::<(), ServerError>(ServerError::QueryError(QueryError::NotFound)),
{
    if found {
        Ok(())
    } else {
        Err(ServerError::QueryError(QueryError::NotFound))
    }
}

/// A tag to delete exists (else `InvalidTag`).
pub fn check_tag_found(found: bool) -> (r: Result<(), ServerError>)
    ensures
        found ==> r is Ok,
        !found ==> r == Err::<(), ServerError>(ServerError::QueryError(QueryError::InvalidTag)),
{
    if found {
        Ok(())
    } else {
        Err(ServerError::QueryError(QueryError::InvalidTag))
    }
}

} // verus!
