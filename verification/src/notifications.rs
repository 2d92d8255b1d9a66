//! Notifications kept for users: how many a user keeps, which ones are
//! dropped when there are more, and marking them read.
use vstd::prelude::*;
use crate::aggregate::{is_stable_desc_order, ordered, stable_desc_order};

verus! {

/// How many notifications a user keeps.
pub const NOTIFICATION_LIMIT: usize = 10;

/// A notification as stored; times are milliseconds since the Unix epoch.
#[derive(Debug, Clone)]
pub struct NotificationRecord {
    pub id: u128,
    pub user_id: u128,
    pub title: String,
    pub text: String,
    pub source: String,
    pub is_read: bool,
    pub created_at: i64,
}

pub open spec fn created_order_keys(notes: Seq<NotificationRecord>) -> Seq<i128> {
    notes.map_values(|n: NotificationRecord| n.created_at as i128)
}

pub open spec fn ids_of(notes: Seq<NotificationRecord>) -> Seq<u128> {
    notes.map_values(|n: NotificationRecord| n.id)
}

/// The notifications of one user to delete after a new one was stored: all
/// but the `NOTIFICATION_LIMIT` newest (newest first, ties in stored order).
pub fn notifications_to_prune(notes: &Vec<NotificationRecord>) -> (r: Vec<u128>)
    ensures
        exists|order: Seq<usize>|
            #[trigger] is_stable_desc_order(created_order_keys(notes@), order)
            && r@ == ordered(ids_of(notes@), order).skip(
                if notes@.len() < NOTIFICATION_LIMIT { notes@.len() as int } else { NOTIFICATION_LIMIT as int },
            ),
{
    let mut keys: Vec<i128> = Vec::new();
    let mut k: usize = 0;
    while k < notes.len()
        invariant
            k <= notes@.len(),
            keys@ == created_order_keys(notes@).take(k as int),
        decreases notes@.len() - k,
    {
        keys.push(notes[k].created_at as i128);
        proof { assert(keys@ =~= created_order_keys(notes@).take(k + 1)); }
        k = k + 1;
    }
    proof { assert(keys@ =~= created_order_keys(notes@)); }
    let order = stable_desc_order(&keys);
    let ghost sorted = ordered(ids_of(notes@), order@);
    let start: usize = if notes.len() < NOTIFICATION_LIMIT { notes.len() } else { NOTIFICATION_LIMIT };
    let mut r: Vec<u128> = Vec::new();
    let mut q: usize = start;
    while q < order.len()
        invariant
            is_stable_desc_order(created_order_keys(notes@), order@),
            sorted == ordered(ids_of(notes@), order@),
            order@.len() == notes@.len(),
            start <= q <= order@.len(),
            r@ == sorted.subrange(start as int, q as int),
        decreases order@.len() - q,
    {
        r.push(notes[order[q]].id);
        proof { assert(r@ =~= sorted.subrange(start as int, q + 1)); }
        q = q + 1;
    }
    proof { assert(sorted.skip(start as int) =~= sorted.subrange(start as int, order@.len() as int)); }
    r
}

/// After pruning, a user keeps at most `NOTIFICATION_LIMIT` notifications:
/// exactly the excess is deleted.
pub proof fn lemma_prune_keeps_limit(notes: Seq<NotificationRecord>, order: Seq<usize>, pruned: Seq<u128>)
    requires
        is_stable_desc_order(created_order_keys(notes), order),
        pruned == ordered(ids_of(notes), order).skip(
            if notes.len() < NOTIFICATION_LIMIT { notes.len() as int } else { NOTIFICATION_LIMIT as int },
        ),
    ensures
        notes.len() - pruned.len() == if notes.len() < NOTIFICATION_LIMIT { notes.len() as int } else { NOTIFICATION_LIMIT as int },
{
}

/// The notification marked as read.
pub fn mark_read(n: NotificationRecord) -> (r: NotificationRecord)
    ensures
        r.is_read,
        r.id == n.id && r.user_id == n.user_id && r.title == n.title && r.text == n.text
            && r.source == n.source && r.created_at == n.created_at,
{
    let mut r = n;
    r.is_read = true;
    r
}

} // verus!
