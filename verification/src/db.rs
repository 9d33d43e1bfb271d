//! The harvest cursor: how far a source/target pair has been processed.

use vstd::prelude::*;

verus! {

/// The stored progress of one source/target pair.
#[derive(Debug, Clone)]
pub struct Cursor {
    /// The id of the last message forwarded (0: none yet).
    pub last_msg_id: i64,
    /// The date of that message, in RFC 3339 form.
    pub last_msg_date: String,
    /// When the pair was last processed, in RFC 3339 form.
    pub last_run_at: String,
    pub total_scanned: i64,
    pub total_forwarded: i64,
}

impl Cursor {
    /// A cursor that has processed nothing, stamped with the time `now`
    /// (the caller reads the clock).
    pub fn fresh(now: String) -> (r: Cursor)
        ensures
            r.last_msg_id == 0,
            r.last_msg_date@ == Seq::<char>::empty(),
            r.last_run_at == now,
            r.total_scanned == 0,
            r.total_forwarded == 0,
    {
        Cursor {
            last_msg_id: 0,
            last_msg_date: String::new(),
            last_run_at: now,
            total_scanned: 0,
            total_forwarded: 0,
        }
    }

    /// The cursor that a lookup gives: the stored row, or a fresh cursor
    /// stamped with `now` when the pair has no row yet.
    pub fn or_default(found: Option<Cursor>, now: String) -> (r: Cursor)
        ensures
            found matches Some(c) ==> r == c,
            found is None ==> r.last_msg_id == 0 && r.last_msg_date@ == Seq::<char>::empty()
                && r.last_run_at == now && r.total_scanned == 0 && r.total_forwarded == 0,
    {
        match found {
            Some(c) => c,
            None => Cursor::fresh(now),
        }
    }
}

} // verus!
