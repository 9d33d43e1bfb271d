//! The harvest of one source channel, as a state machine.
//!
//! The caller performs the actions that need the network, the clock or the
//! database (fetching a batch, forwarding, pausing, saving the cursor) and
//! reports their outcomes; the machine makes every decision: where to read,
//! which messages to skip, which to forward and as what, how the cursor and
//! the counters move, and when to stop.

use vstd::prelude::*;
use std::collections::HashMap;
use crate::config::{ChannelConfig, GlobalConfig};
use crate::text::{chars_of, contains_chars, contains_seq, parse_i64, parsed_i64};
use crate::db::Cursor;
use crate::filter::{ChannelFilter, MessageFilter, MessageInfo};
use crate::sort::{
    key_sorted, lemma_stable_sorted, lemma_stable_sorted_all, stable_sort, stable_sorted, SortKey,
};

verus! {

/// Counters reported at the end of a harvest.
#[derive(Debug, Clone, Copy, PartialEq, Eq, Structural)]
pub struct HarvestStats {
    pub total_scanned: i64,
    pub total_forwarded: i64,
    pub total_skipped: i64,
}

/// A message kept from a fetched batch, with its place in that batch.
#[derive(Debug, Clone)]
pub struct BatchEntry {
    pub position: usize,
    pub message: MessageInfo,
}

impl SortKey for BatchEntry {
    open spec fn key_le(&self, other: &Self) -> bool {
        self.message.id <= other.message.id
    }

    fn key_le_exec(&self, other: &Self) -> (r: bool) {
        self.message.id <= other.message.id
    }

    proof fn lemma_key_le_total(a: &Self, b: &Self) {
    }

    proof fn lemma_key_le_transitive(a: &Self, b: &Self, c: &Self) {
    }
}

/// Why a message or album is not forwarded.
#[derive(Debug, Clone, Copy, PartialEq, Eq, Structural)]
pub enum SkipReason {
    /// Its id is at most the cursor's: it was forwarded by an earlier run.
    AlreadyForwarded,
    /// The filter rejects it (for an album: its first message).
    Rejected,
}

/// Why a harvest ends normally.
#[derive(Debug, Clone, Copy, PartialEq, Eq, Structural)]
pub enum StopReason {
    /// The source has no message at all.
    NoMessages,
    /// The task's message limit is reached.
    LimitReached,
    /// The read offset passed the latest message id plus 100.
    PastLatest,
    /// Three batches in a row held no message.
    EmptyBatches,
}

/// How forwarding one message with retries ended.
#[derive(Debug, Clone, Copy, PartialEq, Eq, Structural)]
pub enum SendOutcome {
    Sent,
    GaveUp,
    Failed,
}

/// What the caller is to do next.
#[derive(Debug, Clone, Copy, PartialEq, Eq, Structural)]
pub enum HarvestAction {
    /// Fetch up to `limit` messages older than `offset`, newest first, and
    /// report them with `batch_fetched`.
    Fetch { offset: i32, limit: usize },
    /// A batch held no message; the offset moved on.
    EmptyBatch { count: i32 },
    /// An album member whose album was already handled in this batch.
    SkipMember { id: i32 },
    /// An album not forwarded.
    SkipAlbum { grouped_id: i64, first_id: i32, len: usize, reason: SkipReason },
    /// A single message not forwarded.
    SkipMessage { id: i32, reason: SkipReason },
    /// Forward the batch entries `start..end` as one album and report with
    /// `album_result`.
    ForwardAlbum { grouped_id: i64, start: usize, end: usize },
    /// Forward the batch entry `index` (at `position` in the fetched batch)
    /// with retries and report with `message_result`.
    ForwardMessage { index: usize, position: usize },
    /// Sleep `millis` milliseconds.
    Pause { millis: u64 },
    /// Store the cursor.
    SaveCursor,
    /// The harvest is over.
    Finish { reason: StopReason, stats: HarvestStats },
    /// A forward failed for good: the harvest ends with its error.
    Stop,
    /// An outcome is awaited; nothing is to be done.
    Idle,
    /// A counter or the offset would leave its integer type.
    Overflow,
}

/// Where the machine stands.
#[derive(Debug, Clone, Copy, PartialEq, Eq, Structural)]
pub enum HarvestPhase {
    NoMessages,
    Start,
    Fetching,
    Fetched,
    Processing,
    AdvanceOffset,
    AwaitAlbum { start: usize, end: usize },
    AwaitMessage,
    PauseAlbum { end: usize },
    ResumeAlbum { end: usize },
    PauseMessage,
    ResumeMessage,
    Finished { reason: StopReason },
    Failed,
    Overflowed,
}

/// The state of a harvest.
#[derive(Debug, Clone)]
pub struct Harvest {
    /// At most this many messages are processed (0: no limit).
    pub limit: usize,
    pub batch_size: usize,
    pub forward_delay_ms: u64,
    /// The id of the newest message of the source when the harvest began.
    pub latest_msg_id: i32,
    pub filter: ChannelFilter,
    pub cursor: Cursor,
    pub total_scanned: i64,
    pub total_forwarded: i64,
    pub total_skipped: i64,
    pub processed_count: usize,
    /// Messages are read below this id.
    pub offset: i32,
    /// Batches in a row that held no message.
    pub empty_count: i32,
    /// The kept messages of the current batch, by ascending id.
    pub batch: Vec<BatchEntry>,
    /// The next batch entry to look at.
    pub pos: usize,
    pub phase: HarvestPhase,
}

/// `x` fits in an `i32`.
pub open spec fn fits_i32(x: int) -> bool {
    i32::MIN <= x <= i32::MAX
}

/// `x` fits in an `i64`.
pub open spec fn fits_i64(x: int) -> bool {
    i64::MIN <= x <= i64::MAX
}

/// The first read offset: 100 past the last forwarded message, or 100 on a
/// first run (the `i64` sum cut down to an `i32`).
pub open spec fn start_offset(last_msg_id: i64) -> i32 {
    if last_msg_id > 0 {
        (last_msg_id + 100) as i32
    } else {
        100
    }
}

/// The messages of a fetched batch that are not deleted, with their places,
/// in the order they came.
pub open spec fn kept_entries(raw: Seq<MessageInfo>) -> Seq<BatchEntry>
    decreases raw.len(),
{
    if raw.len() == 0 {
        Seq::empty()
    } else {
        let k = kept_entries(raw.drop_last());
        if raw.last().is_deleted() {
            k
        } else {
            k.push(BatchEntry { position: (raw.len() - 1) as usize, message: raw.last() })
        }
    }
}

/// The end of the run of entries from `j` on that belong to album `gid`.
pub open spec fn run_end(b: Seq<BatchEntry>, j: int, gid: i64) -> int
    decreases b.len() - j,
{
    if j < 0 || j >= b.len() {
        b.len() as int
    } else if b[j].message.grouped_id != Some(gid) {
        j
    } else {
        run_end(b, j + 1, gid)
    }
}

/// Album `gid` occurs among the first `pos` entries (so it was handled).
/// The batch is processed in order from its start, so the albums already
/// handled in it are exactly those whose id occurs before `pos`; the batch
/// and `pos` record them, and no separate set of album ids is kept that
/// would have to be held in step with them.
pub open spec fn album_seen(b: Seq<BatchEntry>, pos: int, gid: i64) -> bool {
    exists|j: int| 0 <= j < pos && (#[trigger] b[j]).message.grouped_id == Some(gid)
}

/// A cursor with fresh totals and run time.
pub open spec fn stamped(c: Cursor, scanned: i64, forwarded: i64, now: String) -> Cursor {
    Cursor { total_scanned: scanned, total_forwarded: forwarded, last_run_at: now, ..c }
}

impl Harvest {
    pub open spec fn stats_of(self) -> HarvestStats {
        HarvestStats {
            total_scanned: self.total_scanned,
            total_forwarded: self.total_forwarded,
            total_skipped: self.total_skipped,
        }
    }

    /// The offset after this batch (`batch_size` cut down to an `i32`).
    pub open spec fn next_offset(self) -> int {
        self.offset + (self.batch_size as i32)
    }

    pub open spec fn finish(self, reason: StopReason) -> (Harvest, HarvestAction) {
        (
            Harvest { phase: HarvestPhase::Finished { reason }, ..self },
            HarvestAction::Finish { reason, stats: self.stats_of() },
        )
    }

    pub open spec fn overflow(self) -> (Harvest, HarvestAction) {
        (Harvest { phase: HarvestPhase::Overflowed, ..self }, HarvestAction::Overflow)
    }

    /// The decision at the head of the batch loop.
    pub open spec fn decide_start(self) -> (Harvest, HarvestAction) {
        if self.limit > 0 && self.processed_count >= self.limit {
            self.finish(StopReason::LimitReached)
        } else if self.latest_msg_id + 100 > i32::MAX {
            self.overflow()
        } else if self.offset > self.latest_msg_id + 100 {
            self.finish(StopReason::PastLatest)
        } else if self.empty_count >= 3 {
            self.finish(StopReason::EmptyBatches)
        } else {
            (
                Harvest { phase: HarvestPhase::Fetching, ..self },
                HarvestAction::Fetch { offset: self.offset, limit: self.batch_size },
            )
        }
    }

    /// The decision once a batch has been fetched.
    pub open spec fn decide_fetched(self, now: String) -> (Harvest, HarvestAction) {
        if self.batch.len() == 0 {
            let count = self.empty_count + 1;
            let h = Harvest { empty_count: count as i32, ..self };
            if count >= 3 {
                h.finish(StopReason::EmptyBatches)
            } else if !fits_i32(self.next_offset()) {
                h.overflow()
            } else {
                (
                    Harvest {
                        offset: self.next_offset() as i32,
                        phase: HarvestPhase::Start,
                        ..h
                    },
                    HarvestAction::EmptyBatch { count: count as i32 },
                )
            }
        } else {
            Harvest { empty_count: 0, phase: HarvestPhase::Processing, ..self }.decide_unit(now)
        }
    }

    /// The decision on the batch entry at `pos`.
    pub open spec fn decide_unit(self, now: String) -> (Harvest, HarvestAction) {
        if self.pos >= self.batch.len() || (self.limit > 0 && self.processed_count
            >= self.limit) {
            (Harvest { phase: HarvestPhase::AdvanceOffset, ..self }, HarvestAction::SaveCursor)
        } else {
            let m = self.batch[self.pos as int].message;
            match m.grouped_id {
                Some(gid) => {
                    if album_seen(self.batch@, self.pos as int, gid) {
                        (
                            Harvest { pos: (self.pos + 1) as usize, ..self },
                            HarvestAction::SkipMember { id: m.id },
                        )
                    } else {
                        let end = run_end(self.batch@, self.pos + 1, gid);
                        let len = end - self.pos;
                        let skipped = self.total_skipped + len;
                        let scanned = self.total_scanned + len;
                        let processed = self.processed_count + len;
                        if m.id as i64 <= self.cursor.last_msg_id || !self.filter.accepts(m) {
                            if !fits_i64(skipped) || !fits_i64(scanned) || processed
                                > usize::MAX {
                                self.overflow()
                            } else {
                                let already = m.id as i64 <= self.cursor.last_msg_id;
                                (
                                    Harvest {
                                        total_skipped: skipped as i64,
                                        total_scanned: scanned as i64,
                                        processed_count: processed as usize,
                                        pos: end as usize,
                                        cursor: if already {
                                            self.cursor
                                        } else {
                                            stamped(
                                                self.cursor,
                                                scanned as i64,
                                                self.total_forwarded,
                                                now,
                                            )
                                        },
                                        ..self
                                    },
                                    HarvestAction::SkipAlbum {
                                        grouped_id: gid,
                                        first_id: m.id,
                                        len: len as usize,
                                        reason: if already {
                                            SkipReason::AlreadyForwarded
                                        } else {
                                            SkipReason::Rejected
                                        },
                                    },
                                )
                            }
                        } else {
                            (
                                Harvest {
                                    phase: HarvestPhase::AwaitAlbum {
                                        start: self.pos,
                                        end: end as usize,
                                    },
                                    ..self
                                },
                                HarvestAction::ForwardAlbum {
                                    grouped_id: gid,
                                    start: self.pos,
                                    end: end as usize,
                                },
                            )
                        }
                    }
                },
                None => {
                    let scanned = self.total_scanned + 1;
                    let processed = self.processed_count + 1;
                    let skipped = self.total_skipped + 1;
                    if !fits_i64(scanned) || processed > usize::MAX {
                        self.overflow()
                    } else {
                        let h = Harvest {
                            total_scanned: scanned as i64,
                            processed_count: processed as usize,
                            ..self
                        };
                        if m.id as i64 <= self.cursor.last_msg_id {
                            if !fits_i64(skipped) {
                                h.overflow()
                            } else {
                                (
                                    Harvest {
                                        total_skipped: skipped as i64,
                                        pos: (self.pos + 1) as usize,
                                        ..h
                                    },
                                    HarvestAction::SkipMessage {
                                        id: m.id,
                                        reason: SkipReason::AlreadyForwarded,
                                    },
                                )
                            }
                        } else if self.filter.accepts(m) {
                            (
                                Harvest { phase: HarvestPhase::AwaitMessage, ..h },
                                HarvestAction::ForwardMessage {
                                    index: self.pos,
                                    position: self.batch[self.pos as int].position,
                                },
                            )
                        } else if !fits_i64(skipped) {
                            h.overflow()
                        } else {
                            (
                                Harvest {
                                    total_skipped: skipped as i64,
                                    pos: (self.pos + 1) as usize,
                                    cursor: stamped(
                                        self.cursor,
                                        scanned as i64,
                                        self.total_forwarded,
                                        now,
                                    ),
                                    ..h
                                },
                                HarvestAction::SkipMessage {
                                    id: m.id,
                                    reason: SkipReason::Rejected,
                                },
                            )
                        }
                    }
                },
            }
        }
    }

    /// One step: the bookkeeping left from the last outcome, then the next
    /// decision. `now` is the time stamped on the cursor when it is stamped.
    pub open spec fn step(self, now: String) -> (Harvest, HarvestAction) {
        match self.phase {
            HarvestPhase::NoMessages => self.finish(StopReason::NoMessages),
            HarvestPhase::Start => self.decide_start(),
            HarvestPhase::Fetched => self.decide_fetched(now),
            HarvestPhase::Processing => self.decide_unit(now),
            HarvestPhase::AdvanceOffset => {
                if !fits_i32(self.next_offset()) {
                    self.overflow()
                } else {
                    Harvest {
                        offset: self.next_offset() as i32,
                        phase: HarvestPhase::Start,
                        ..self
                    }.decide_start()
                }
            },
            HarvestPhase::PauseAlbum { end } => (
                Harvest { phase: HarvestPhase::ResumeAlbum { end }, ..self },
                HarvestAction::Pause { millis: self.forward_delay_ms },
            ),
            HarvestPhase::ResumeAlbum { end } => {
                let len = end - self.pos;
                let scanned = self.total_scanned + len;
                let processed = self.processed_count + len;
                if !fits_i64(scanned) || processed > usize::MAX {
                    self.overflow()
                } else {
                    Harvest {
                        total_scanned: scanned as i64,
                        processed_count: processed as usize,
                        pos: end,
                        cursor: stamped(self.cursor, scanned as i64, self.total_forwarded, now),
                        phase: HarvestPhase::Processing,
                        ..self
                    }.decide_unit(now)
                }
            },
            HarvestPhase::PauseMessage => (
                Harvest { phase: HarvestPhase::ResumeMessage, ..self },
                HarvestAction::Pause { millis: self.forward_delay_ms },
            ),
            HarvestPhase::ResumeMessage => Harvest {
                pos: (self.pos + 1) as usize,
                cursor: stamped(self.cursor, self.total_scanned, self.total_forwarded, now),
                phase: HarvestPhase::Processing,
                ..self
            }.decide_unit(now),
            HarvestPhase::Finished { reason } => (self, HarvestAction::Finish { reason, stats: self.stats_of() }),
            HarvestPhase::Failed => (self, HarvestAction::Stop),
            HarvestPhase::Overflowed => (self, HarvestAction::Overflow),
            _ => (self, HarvestAction::Idle),
        }
    }

    /// The state after the album awaited was forwarded (`ok`) or not.
    pub open spec fn after_album(self, ok: bool) -> Harvest {
        match self.phase {
            HarvestPhase::AwaitAlbum { start, end } => {
                let forwarded = self.total_forwarded + (end - start);
                let last = self.batch[end - 1].message;
                if !ok {
                    Harvest { phase: HarvestPhase::Failed, ..self }
                } else if !fits_i64(forwarded) {
                    Harvest { phase: HarvestPhase::Overflowed, ..self }
                } else {
                    Harvest {
                        total_forwarded: forwarded as i64,
                        cursor: Cursor {
                            last_msg_id: last.id as i64,
                            last_msg_date: last.date,
                            ..self.cursor
                        },
                        phase: HarvestPhase::PauseAlbum { end },
                        ..self
                    }
                }
            },
            _ => self,
        }
    }

    /// The state after the message awaited was sent, given up on, or failed.
    pub open spec fn after_message(self, outcome: SendOutcome) -> Harvest {
        let m = self.batch[self.pos as int].message;
        match outcome {
            SendOutcome::Failed => Harvest { phase: HarvestPhase::Failed, ..self },
            SendOutcome::Sent => if !fits_i64(self.total_forwarded + 1) {
                Harvest { phase: HarvestPhase::Overflowed, ..self }
            } else {
                Harvest {
                    total_forwarded: (self.total_forwarded + 1) as i64,
                    cursor: Cursor { last_msg_id: m.id as i64, last_msg_date: m.date, ..self.cursor },
                    phase: HarvestPhase::PauseMessage,
                    ..self
                }
            },
            SendOutcome::GaveUp => if !fits_i64(self.total_skipped + 1) {
                Harvest { phase: HarvestPhase::Overflowed, ..self }
            } else {
                Harvest {
                    total_skipped: (self.total_skipped + 1) as i64,
                    phase: HarvestPhase::PauseMessage,
                    ..self
                }
            },
        }
    }

    /// The invariant of the machine.
    pub open spec fn wf(self) -> bool {
        &&& self.pos <= self.batch.len()
        &&& key_sorted(self.batch@)
        &&& forall|i: int| 0 <= i < self.batch.len() ==> (#[trigger] self.batch[i]).message.wf()
        &&& 0 <= self.empty_count <= 3
        &&& (self.phase is Fetching || self.phase is Fetched) ==> self.empty_count < 3
        &&& match self.phase {
            HarvestPhase::AwaitAlbum { start, end } => {
                &&& start == self.pos
                &&& start < end <= self.batch.len()
                &&& self.batch[start as int].message.id > self.cursor.last_msg_id
                &&& self.batch[start as int].message.grouped_id is Some
                &&& forall|k: int|
                    start <= k < end ==> (#[trigger] self.batch[k]).message.grouped_id
                        == self.batch[start as int].message.grouped_id
            },
            HarvestPhase::AwaitMessage => {
                &&& self.pos < self.batch.len()
                &&& self.batch[self.pos as int].message.id > self.cursor.last_msg_id
            },
            HarvestPhase::PauseAlbum { end } => self.pos < end <= self.batch.len(),
            HarvestPhase::ResumeAlbum { end } => self.pos < end <= self.batch.len(),
            HarvestPhase::PauseMessage => self.pos < self.batch.len(),
            HarvestPhase::ResumeMessage => self.pos < self.batch.len(),
            _ => true,
        }
    }
}

/// `m` has text or media: it was not deleted.
pub open spec fn has_content(m: MessageInfo) -> bool {
    m.has_text || m.has_media
}

proof fn lemma_kept_entries_exact(raw: Seq<MessageInfo>)
    requires
        raw.len() <= usize::MAX,
    ensures
        forall|j: int|
            0 <= j < kept_entries(raw).len() ==> {
                let e = #[trigger] kept_entries(raw)[j];
                &&& e.position < raw.len()
                &&& e.message == raw[e.position as int]
                &&& has_content(e.message)
            },
        forall|i: int|
            0 <= i < raw.len() && has_content(#[trigger] raw[i]) ==> kept_entries(raw).contains(
                BatchEntry { position: i as usize, message: raw[i] },
            ),
    decreases raw.len(),
{
    if raw.len() > 0 {
        let r0 = raw.drop_last();
        lemma_kept_entries_exact(r0);
        let k0 = kept_entries(r0);
        let k = kept_entries(raw);
        let n = raw.len() - 1;
        assert forall|j: int| 0 <= j < k.len() implies {
            let e = #[trigger] k[j];
            &&& e.position < raw.len()
            &&& e.message == raw[e.position as int]
            &&& has_content(e.message)
        } by {
            if j < k0.len() {
                assert(k[j] == k0[j]);
                assert(raw[k0[j].position as int] == r0[k0[j].position as int]);
            } else {
                assert(k[j].position == n);
                assert(k[j].message == raw[n]);
            }
        }
        assert forall|i: int| 0 <= i < raw.len() && has_content(#[trigger] raw[i]) implies k.contains(
            BatchEntry { position: i as usize, message: raw[i] },
        ) by {
            let e = BatchEntry { position: i as usize, message: raw[i] };
            if i < n {
                assert(raw[i] == r0[i]);
                assert(has_content(r0[i]));
                let w = choose|w: int| 0 <= w < k0.len() && k0[w] == e;
                assert(k[w] == e);
            } else {
                assert(k[k.len() - 1] == e);
            }
        }
    }
}

/// A fetched batch keeps exactly the messages that have text or media, each
/// with its place in the batch as it came: every entry is a message of the
/// batch at its recorded place and has content, and every message with text
/// or media (a photo without caption too) is among the entries. The entries
/// are ordered by id.
pub proof fn lemma_batch_keeps_messages_with_content(raw: Seq<MessageInfo>)
    requires
        raw.len() <= usize::MAX,
    ensures
        ({
            let b = stable_sorted(kept_entries(raw));
            &&& forall|j: int|
                0 <= j < b.len() ==> {
                    let e = #[trigger] b[j];
                    &&& e.position < raw.len()
                    &&& e.message == raw[e.position as int]
                    &&& e.message.has_text || e.message.has_media
                }
            &&& forall|i: int|
                0 <= i < raw.len() && (raw[i].has_text || raw[i].has_media) ==> exists|j: int|
                    0 <= j < b.len() && (#[trigger] b[j]).position == i && b[j].message
                        == raw[i]
            &&& forall|i: int, j: int|
                0 <= i < j < b.len() ==> (#[trigger] b[i]).message.id <= (#[trigger] b[j]).message.id
        }),
{
    broadcast use vstd::seq_lib::group_to_multiset_ensures;

    let k = kept_entries(raw);
    let b = stable_sorted(k);
    lemma_kept_entries_exact(raw);
    lemma_stable_sorted(k);
    assert forall|j: int| 0 <= j < b.len() implies {
        let e = #[trigger] b[j];
        &&& e.position < raw.len()
        &&& e.message == raw[e.position as int]
        &&& e.message.has_text || e.message.has_media
    } by {
        assert(b.contains(b[j]));
        assert(b.to_multiset().count(b[j]) > 0);
        assert(k.contains(b[j]));
        let w = choose|w: int| 0 <= w < k.len() && k[w] == b[j];
        assert(k[w] == b[j]);
    }
    assert forall|i: int| 0 <= i < raw.len() && (raw[i].has_text || raw[i].has_media) implies exists|j: int|
        0 <= j < b.len() && (#[trigger] b[j]).position == i && b[j].message == raw[i] by {
        let e = BatchEntry { position: i as usize, message: raw[i] };
        assert(has_content(raw[i]));
        assert(k.contains(e));
        assert(k.to_multiset().count(e) > 0);
        assert(b.contains(e));
        let j = choose|j: int| 0 <= j < b.len() && b[j] == e;
        assert(b[j].position == i);
    }
    assert forall|i: int, j: int| 0 <= i < j < b.len() implies (#[trigger] b[i]).message.id
        <= (#[trigger] b[j]).message.id by {
        assert(b[i].key_le(&b[j]));
    }
}

proof fn lemma_kept_entries_wf(raw: Seq<MessageInfo>)
    requires
        forall|i: int| 0 <= i < raw.len() ==> (#[trigger] raw[i]).wf(),
    ensures
        forall|i: int|
            0 <= i < kept_entries(raw).len() ==> (#[trigger] kept_entries(raw)[i]).message.wf(),
    decreases raw.len(),
{
    if raw.len() > 0 {
        lemma_kept_entries_wf(raw.drop_last());
        assert(raw[raw.len() - 1].wf());
    }
}

/// The non-deleted messages of `raw`, with their places.
fn keep_entries(raw: Vec<MessageInfo>) -> (r: Vec<BatchEntry>)
    ensures
        r@ == kept_entries(raw@),
{
    let ghost orig = raw@;
    assert(orig.len() == raw.len());
    let mut rest = raw;
    let mut out: Vec<BatchEntry> = Vec::new();
    let mut k: usize = 0;
    while rest.len() > 0
        invariant
            k + rest.len() == orig.len(),
            orig.len() <= usize::MAX,
            rest@ == orig.skip(k as int),
            out@ == kept_entries(orig.take(k as int)),
        decreases rest.len(),
    {
        let m = rest.remove(0);
        assert(m == orig[k as int]);
        assert(orig.take(k + 1).drop_last() =~= orig.take(k as int));
        assert(orig.take(k + 1).last() == m);
        if m.has_text || m.has_media {
            out.push(BatchEntry { position: k, message: m });
        }
        k += 1;
        assert(rest@ =~= orig.skip(k as int));
    }
    assert(orig.take(k as int) =~= orig);
    out
}

impl Harvest {
    /// The machine at the start of a harvest, given the stored cursor and the
    /// id of the newest message of the source (`None`: the source is empty).
    pub fn new(
        channel: &ChannelConfig,
        global: &GlobalConfig,
        cursor: Cursor,
        latest_msg_id: Option<i32>,
    ) -> (h: Harvest)
        ensures
            h.wf(),
            h.limit == channel.limit,
            h.batch_size == global.batch_size,
            h.forward_delay_ms == global.forward_delay_ms,
            h.filter.built_from(channel.filter),
            h.cursor == cursor,
            h.batch@.len() == 0,
            h.pos == 0,
            h.empty_count == 0,
            h.processed_count == 0,
            h.total_skipped == 0,
            match latest_msg_id {
                None => h.phase == HarvestPhase::NoMessages && h.total_scanned == 0
                    && h.total_forwarded == 0,
                Some(l) => {
                    &&& h.latest_msg_id == l
                    &&& h.total_scanned == cursor.total_scanned
                    &&& h.total_forwarded == cursor.total_forwarded
                    &&& if cursor.last_msg_id > 0 && cursor.last_msg_id + 100 > i64::MAX {
                        h.phase == HarvestPhase::Overflowed
                    } else {
                        h.phase == HarvestPhase::Start && h.offset == start_offset(
                            cursor.last_msg_id,
                        )
                    }
                },
            },
    {
        let filter = ChannelFilter::new(&channel.filter);
        match latest_msg_id {
            None => Harvest {
                limit: channel.limit,
                batch_size: global.batch_size,
                forward_delay_ms: global.forward_delay_ms,
                latest_msg_id: 0,
                filter,
                cursor,
                total_scanned: 0,
                total_forwarded: 0,
                total_skipped: 0,
                processed_count: 0,
                offset: 0,
                empty_count: 0,
                batch: Vec::new(),
                pos: 0,
                phase: HarvestPhase::NoMessages,
            },
            Some(latest) => {
                let total_scanned = cursor.total_scanned;
                let total_forwarded = cursor.total_forwarded;
                let (offset, phase) = if cursor.last_msg_id > 0 {
                    if cursor.last_msg_id > i64::MAX - 100 {
                        (0i32, HarvestPhase::Overflowed)
                    } else {
                        ((cursor.last_msg_id + 100) as i32, HarvestPhase::Start)
                    }
                } else {
                    (100i32, HarvestPhase::Start)
                };
                Harvest {
                    limit: channel.limit,
                    batch_size: global.batch_size,
                    forward_delay_ms: global.forward_delay_ms,
                    latest_msg_id: latest,
                    filter,
                    cursor,
                    total_scanned,
                    total_forwarded,
                    total_skipped: 0,
                    processed_count: 0,
                    offset,
                    empty_count: 0,
                    batch: Vec::new(),
                    pos: 0,
                    phase,
                }
            },
        }
    }

    /// The counters so far.
    pub fn stats(&self) -> (r: HarvestStats)
        ensures
            r == self.stats_of(),
    {
        HarvestStats {
            total_scanned: self.total_scanned,
            total_forwarded: self.total_forwarded,
            total_skipped: self.total_skipped,
        }
    }

    /// The places in the fetched batch of the entries `start..end`.
    pub fn album_positions(&self, start: usize, end: usize) -> (r: Vec<usize>)
        requires
            start <= end <= self.batch.len(),
        ensures
            r@ == Seq::new((end - start) as nat, |k: int| self.batch[start + k].position),
    {
        let mut r: Vec<usize> = Vec::new();
        let mut i: usize = start;
        while i < end
            invariant
                start <= i <= end <= self.batch.len(),
                r@ == Seq::new((i - start) as nat, |k: int| self.batch[start + k].position),
            decreases end - i,
        {
            r.push(self.batch[i].position);
            i += 1;
            assert(r@ =~= Seq::new((i - start) as nat, |k: int| self.batch[start + k].position));
        }
        r
    }

    /// Takes a fetched batch (newest first, as it came): keeps the messages
    /// that are not deleted and orders them by id.
    pub fn batch_fetched(&mut self, raw: Vec<MessageInfo>)
        requires
            old(self).wf(),
            old(self).phase == HarvestPhase::Fetching,
            forall|i: int| 0 <= i < raw.len() ==> (#[trigger] raw[i]).wf(),
        ensures
            *final(self) == (Harvest {
                batch: final(self).batch,
                pos: 0,
                phase: HarvestPhase::Fetched,
                ..*old(self)
            }),
            final(self).batch@ == stable_sorted(kept_entries(raw@)),
            final(self).wf(),
            forall|j: int|
                0 <= j < final(self).batch.len() ==> {
                    let e = #[trigger] final(self).batch[j];
                    &&& e.position < raw.len()
                    &&& e.message == raw@[e.position as int]
                    &&& e.message.has_text || e.message.has_media
                },
            forall|i: int|
                0 <= i < raw.len() && (raw@[i].has_text || raw@[i].has_media) ==> exists|j: int|
                    0 <= j < final(self).batch.len() && (#[trigger] final(self).batch[j]).position
                        == i && final(self).batch[j].message == raw@[i],
    {
        let ghost raw_view = raw@;
        proof {
            assert(raw_view.len() == raw.len());
            lemma_batch_keeps_messages_with_content(raw_view);
        }
        let kept = keep_entries(raw);
        proof {
            lemma_kept_entries_wf(raw_view);
            lemma_stable_sorted(kept@);
            lemma_stable_sorted_all(kept@, |e: BatchEntry| e.message.wf());
        }
        self.batch = stable_sort(kept);
        self.pos = 0;
        self.phase = HarvestPhase::Fetched;
    }

    /// Takes the outcome of forwarding the album awaited.
    pub fn album_result(&mut self, ok: bool)
        requires
            old(self).wf(),
            old(self).phase is AwaitAlbum,
        ensures
            *final(self) == old(self).after_album(ok),
            final(self).wf(),
            final(self).cursor.last_msg_id >= old(self).cursor.last_msg_id,
    {
        let (start, end) = match self.phase {
            HarvestPhase::AwaitAlbum { start, end } => (start, end),
            _ => (0, 0),
        };
        if !ok {
            self.phase = HarvestPhase::Failed;
            return;
        }
        let len = end - start;
        let forwarded: i128 = self.total_forwarded as i128 + len as i128;
        if forwarded > i64::MAX as i128 {
            self.phase = HarvestPhase::Overflowed;
            return;
        }
        proof {
            assert(self.batch@[start as int].key_le(&self.batch@[end - 1]) || start == end - 1);
        }
        self.total_forwarded = forwarded as i64;
        self.cursor.last_msg_id = self.batch[end - 1].message.id as i64;
        self.cursor.last_msg_date = self.batch[end - 1].message.date.clone();
        self.phase = HarvestPhase::PauseAlbum { end };
    }

    /// Takes the outcome of forwarding the message awaited.
    pub fn message_result(&mut self, outcome: SendOutcome)
        requires
            old(self).wf(),
            old(self).phase == HarvestPhase::AwaitMessage,
        ensures
            *final(self) == old(self).after_message(outcome),
            final(self).wf(),
            final(self).cursor.last_msg_id >= old(self).cursor.last_msg_id,
    {
        match outcome {
            SendOutcome::Failed => {
                self.phase = HarvestPhase::Failed;
            },
            SendOutcome::Sent => {
                if self.total_forwarded == i64::MAX {
                    self.phase = HarvestPhase::Overflowed;
                } else {
                    self.total_forwarded = self.total_forwarded + 1;
                    self.cursor.last_msg_id = self.batch[self.pos].message.id as i64;
                    self.cursor.last_msg_date = self.batch[self.pos].message.date.clone();
                    self.phase = HarvestPhase::PauseMessage;
                }
            },
            SendOutcome::GaveUp => {
                if self.total_skipped == i64::MAX {
                    self.phase = HarvestPhase::Overflowed;
                } else {
                    self.total_skipped = self.total_skipped + 1;
                    self.phase = HarvestPhase::PauseMessage;
                }
            },
        }
    }
}

impl Harvest {
    fn album_seen_exec(&self, gid: i64) -> (r: bool)
        requires
            self.pos <= self.batch.len(),
        ensures
            r == album_seen(self.batch@, self.pos as int, gid),
    {
        let mut j: usize = 0;
        while j < self.pos
            invariant
                j <= self.pos <= self.batch.len(),
                forall|k: int|
                    0 <= k < j ==> (#[trigger] self.batch@[k]).message.grouped_id != Some(gid),
            decreases self.pos - j,
        {
            let hit = match self.batch[j].message.grouped_id {
                Some(g) => g == gid,
                None => false,
            };
            if hit {
                assert(self.batch@[j as int].message.grouped_id == Some(gid));
                return true;
            }
            j += 1;
        }
        false
    }

    fn run_end_exec(&self, from: usize, gid: i64) -> (r: usize)
        requires
            from <= self.batch.len(),
        ensures
            r as int == run_end(self.batch@, from as int, gid),
            from <= r <= self.batch.len(),
    {
        let mut j: usize = from;
        while j < self.batch.len()
            invariant
                from <= j <= self.batch.len(),
                run_end(self.batch@, from as int, gid) == run_end(self.batch@, j as int, gid),
            decreases self.batch.len() - j,
        {
            let same = match self.batch[j].message.grouped_id {
                Some(g) => g == gid,
                None => false,
            };
            if !same {
                return j;
            }
            j += 1;
        }
        j
    }

    fn overflowed(&mut self) -> (a: HarvestAction)
        ensures
            (*final(self), a) == old(self).overflow(),
    {
        self.phase = HarvestPhase::Overflowed;
        HarvestAction::Overflow
    }

    fn finished(&mut self, reason: StopReason) -> (a: HarvestAction)
        ensures
            (*final(self), a) == old(self).finish(reason),
    {
        self.phase = HarvestPhase::Finished { reason };
        HarvestAction::Finish { reason, stats: self.stats() }
    }

    fn decide_start_exec(&mut self) -> (a: HarvestAction)
        ensures
            (*final(self), a) == old(self).decide_start(),
    {
        if self.limit > 0 && self.processed_count >= self.limit {
            return self.finished(StopReason::LimitReached);
        }
        if self.latest_msg_id > i32::MAX - 100 {
            return self.overflowed();
        }
        if self.offset > self.latest_msg_id + 100 {
            return self.finished(StopReason::PastLatest);
        }
        if self.empty_count >= 3 {
            return self.finished(StopReason::EmptyBatches);
        }
        self.phase = HarvestPhase::Fetching;
        HarvestAction::Fetch { offset: self.offset, limit: self.batch_size }
    }

    /// The offset after this batch, when it fits in an `i32`.
    fn next_offset_exec(&self) -> (r: Option<i32>)
        ensures
            match r {
                Some(o) => fits_i32(self.next_offset()) && o == self.next_offset(),
                None => !fits_i32(self.next_offset()),
            },
    {
        let step = self.batch_size as i32;
        let next: i64 = self.offset as i64 + step as i64;
        if next < i32::MIN as i64 || next > i32::MAX as i64 {
            None
        } else {
            Some(next as i32)
        }
    }

    fn decide_unit_exec(&mut self, now: String) -> (a: HarvestAction)
        requires
            old(self).pos <= old(self).batch.len(),
            forall|i: int|
                0 <= i < old(self).batch.len() ==> (#[trigger] old(self).batch[i]).message.wf(),
        ensures
            (*final(self), a) == old(self).decide_unit(now),
    {
        if self.pos >= self.batch.len() || (self.limit > 0 && self.processed_count >= self.limit) {
            self.phase = HarvestPhase::AdvanceOffset;
            return HarvestAction::SaveCursor;
        }
        let pos = self.pos;
        let id = self.batch[pos].message.id;
        assert(self.batch[pos as int].message.wf());
        match self.batch[pos].message.grouped_id {
            Some(gid) => {
                if self.album_seen_exec(gid) {
                    self.pos = pos + 1;
                    return HarvestAction::SkipMember { id };
                }
                let end = self.run_end_exec(pos + 1, gid);
                let len = end - pos;
                let already = id as i64 <= self.cursor.last_msg_id;
                if already || !self.filter.accept(&self.batch[pos].message) {
                    let skipped: i128 = self.total_skipped as i128 + len as i128;
                    let scanned: i128 = self.total_scanned as i128 + len as i128;
                    if skipped > i64::MAX as i128 || scanned > i64::MAX as i128
                        || self.processed_count > usize::MAX - len {
                        return self.overflowed();
                    }
                    self.total_skipped = skipped as i64;
                    self.total_scanned = scanned as i64;
                    self.processed_count = self.processed_count + len;
                    self.pos = end;
                    if !already {
                        self.cursor.total_scanned = self.total_scanned;
                        self.cursor.total_forwarded = self.total_forwarded;
                        self.cursor.last_run_at = now;
                    }
                    let reason = if already {
                        SkipReason::AlreadyForwarded
                    } else {
                        SkipReason::Rejected
                    };
                    return HarvestAction::SkipAlbum { grouped_id: gid, first_id: id, len, reason };
                }
                self.phase = HarvestPhase::AwaitAlbum { start: pos, end };
                HarvestAction::ForwardAlbum { grouped_id: gid, start: pos, end }
            },
            None => {
                if self.total_scanned == i64::MAX || self.processed_count == usize::MAX {
                    return self.overflowed();
                }
                self.total_scanned = self.total_scanned + 1;
                self.processed_count = self.processed_count + 1;
                if id as i64 <= self.cursor.last_msg_id {
                    if self.total_skipped == i64::MAX {
                        return self.overflowed();
                    }
                    self.total_skipped = self.total_skipped + 1;
                    self.pos = pos + 1;
                    return HarvestAction::SkipMessage { id, reason: SkipReason::AlreadyForwarded };
                }
                if self.filter.accept(&self.batch[pos].message) {
                    self.phase = HarvestPhase::AwaitMessage;
                    return HarvestAction::ForwardMessage {
                        index: pos,
                        position: self.batch[pos].position,
                    };
                }
                if self.total_skipped == i64::MAX {
                    return self.overflowed();
                }
                self.total_skipped = self.total_skipped + 1;
                self.pos = pos + 1;
                self.cursor.total_scanned = self.total_scanned;
                self.cursor.total_forwarded = self.total_forwarded;
                self.cursor.last_run_at = now;
                HarvestAction::SkipMessage { id, reason: SkipReason::Rejected }
            },
        }
    }

    fn decide_fetched_exec(&mut self, now: String) -> (a: HarvestAction)
        requires
            old(self).pos <= old(self).batch.len(),
            0 <= old(self).empty_count < 3,
            forall|i: int|
                0 <= i < old(self).batch.len() ==> (#[trigger] old(self).batch[i]).message.wf(),
        ensures
            (*final(self), a) == old(self).decide_fetched(now),
    {
        if self.batch.len() == 0 {
            self.empty_count = self.empty_count + 1;
            if self.empty_count >= 3 {
                return self.finished(StopReason::EmptyBatches);
            }
            match self.next_offset_exec() {
                None => self.overflowed(),
                Some(o) => {
                    self.offset = o;
                    self.phase = HarvestPhase::Start;
                    HarvestAction::EmptyBatch { count: self.empty_count }
                },
            }
        } else {
            self.empty_count = 0;
            self.phase = HarvestPhase::Processing;
            self.decide_unit_exec(now)
        }
    }

    /// The next action, with `now` as the time stamped on the cursor.
    pub fn next_action_at(&mut self, now: String) -> (a: HarvestAction)
        requires
            old(self).wf(),
        ensures
            (*final(self), a) == old(self).step(now),
            final(self).wf(),
    {
        proof {
            lemma_step_wf(*self, now);
        }
        match self.phase {
            HarvestPhase::NoMessages => self.finished(StopReason::NoMessages),
            HarvestPhase::Start => self.decide_start_exec(),
            HarvestPhase::Fetched => self.decide_fetched_exec(now),
            HarvestPhase::Processing => self.decide_unit_exec(now),
            HarvestPhase::AdvanceOffset => match self.next_offset_exec() {
                None => self.overflowed(),
                Some(o) => {
                    self.offset = o;
                    self.phase = HarvestPhase::Start;
                    self.decide_start_exec()
                },
            },
            HarvestPhase::PauseAlbum { end } => {
                self.phase = HarvestPhase::ResumeAlbum { end };
                HarvestAction::Pause { millis: self.forward_delay_ms }
            },
            HarvestPhase::ResumeAlbum { end } => {
                let len = end - self.pos;
                let scanned: i128 = self.total_scanned as i128 + len as i128;
                if scanned > i64::MAX as i128 || self.processed_count > usize::MAX - len {
                    return self.overflowed();
                }
                self.total_scanned = scanned as i64;
                self.processed_count = self.processed_count + len;
                self.pos = end;
                self.cursor.total_scanned = self.total_scanned;
                self.cursor.total_forwarded = self.total_forwarded;
                self.cursor.last_run_at = now.clone();
                self.phase = HarvestPhase::Processing;
                self.decide_unit_exec(now)
            },
            HarvestPhase::PauseMessage => {
                self.phase = HarvestPhase::ResumeMessage;
                HarvestAction::Pause { millis: self.forward_delay_ms }
            },
            HarvestPhase::ResumeMessage => {
                self.pos = self.pos + 1;
                self.cursor.total_scanned = self.total_scanned;
                self.cursor.total_forwarded = self.total_forwarded;
                self.cursor.last_run_at = now.clone();
                self.phase = HarvestPhase::Processing;
                self.decide_unit_exec(now)
            },
            HarvestPhase::Finished { reason } => HarvestAction::Finish {
                reason,
                stats: self.stats(),
            },
            HarvestPhase::Failed => HarvestAction::Stop,
            HarvestPhase::Overflowed => HarvestAction::Overflow,
            _ => HarvestAction::Idle,
        }
    }
}

proof fn lemma_run_end(b: Seq<BatchEntry>, j: int, gid: i64)
    requires
        0 <= j <= b.len(),
    ensures
        j <= run_end(b, j, gid) <= b.len(),
        forall|k: int| j <= k < run_end(b, j, gid) ==> (#[trigger] b[k]).message.grouped_id == Some(gid),
        run_end(b, j, gid) < b.len() ==> b[run_end(b, j, gid)].message.grouped_id != Some(gid),
    decreases b.len() - j,
{
    if j < b.len() && b[j].message.grouped_id == Some(gid) {
        lemma_run_end(b, j + 1, gid);
    }
}

proof fn lemma_decide_start_wf(h: Harvest)
    requires
        h.wf(),
        h.phase == HarvestPhase::Start || h.phase == HarvestPhase::AdvanceOffset,
    ensures
        h.decide_start().0.wf(),
        h.decide_start().0.cursor == h.cursor,
        h.decide_start().0.batch == h.batch,
        h.decide_start().0.total_forwarded == h.total_forwarded,
        h.decide_start().0.processed_count == h.processed_count,
{
}

proof fn lemma_decide_unit_wf(h: Harvest, now: String)
    requires
        h.wf(),
        h.phase == HarvestPhase::Processing,
    ensures
        h.decide_unit(now).0.wf(),
        h.decide_unit(now).0.cursor.last_msg_id == h.cursor.last_msg_id,
        h.decide_unit(now).0.batch == h.batch,
        h.decide_unit(now).0.total_forwarded == h.total_forwarded,
        h.decide_unit(now).0.processed_count >= h.processed_count,
{
    if h.pos < h.batch.len() && !(h.limit > 0 && h.processed_count >= h.limit) {
        let m = h.batch[h.pos as int].message;
        if let Some(gid) = m.grouped_id {
            lemma_run_end(h.batch@, h.pos + 1, gid);
        }
    }
}

/// Every step keeps the machine's invariant, and no step moves the cursor:
/// only a reported forward does.
pub proof fn lemma_step_wf(h: Harvest, now: String)
    requires
        h.wf(),
    ensures
        h.step(now).0.wf(),
        h.step(now).0.cursor.last_msg_id == h.cursor.last_msg_id,
        h.step(now).0.batch == h.batch,
        h.step(now).0.total_forwarded == h.total_forwarded,
        h.step(now).0.processed_count >= h.processed_count,
{
    match h.phase {
        HarvestPhase::Start => lemma_decide_start_wf(h),
        HarvestPhase::AdvanceOffset => {
            if fits_i32(h.next_offset()) {
                lemma_decide_start_wf(
                    Harvest { offset: h.next_offset() as i32, phase: HarvestPhase::Start, ..h },
                );
            }
        },
        HarvestPhase::Fetched => {
            if h.batch.len() > 0 {
                lemma_decide_unit_wf(
                    Harvest { empty_count: 0, phase: HarvestPhase::Processing, ..h },
                    now,
                );
            }
        },
        HarvestPhase::Processing => lemma_decide_unit_wf(h, now),
        HarvestPhase::ResumeAlbum { end } => {
            let len = end - h.pos;
            let scanned = h.total_scanned + len;
            let processed = h.processed_count + len;
            if fits_i64(scanned) && processed <= usize::MAX {
                lemma_decide_unit_wf(
                    Harvest {
                        total_scanned: scanned as i64,
                        processed_count: processed as usize,
                        pos: end,
                        cursor: stamped(h.cursor, scanned as i64, h.total_forwarded, now),
                        phase: HarvestPhase::Processing,
                        ..h
                    },
                    now,
                );
            }
        },
        HarvestPhase::ResumeMessage => {
            lemma_decide_unit_wf(
                Harvest {
                    pos: (h.pos + 1) as usize,
                    cursor: stamped(h.cursor, h.total_scanned, h.total_forwarded, now),
                    phase: HarvestPhase::Processing,
                    ..h
                },
                now,
            );
        },
        _ => {},
    }
}

/// A harvest forwards a single message only when it is newer than the
/// cursor, and an album only when its first message is: then as the whole
/// run of its members in the batch, all newer than the cursor, the album not
/// having come up earlier in the batch.
pub proof fn lemma_forwards_only_new(h: Harvest, now: String)
    requires
        h.wf(),
    ensures
        ({
            let (h2, a) = h.step(now);
            &&& a matches HarvestAction::ForwardMessage { index, position } ==> {
                &&& index < h2.batch.len()
                &&& h2.batch[index as int].message.id > h2.cursor.last_msg_id
                &&& h2.batch[index as int].message.grouped_id is None
                &&& h2.batch[index as int].position == position
            }
            &&& a matches HarvestAction::ForwardAlbum { grouped_id, start, end } ==> {
                &&& start < end <= h2.batch.len()
                &&& forall|k: int|
                    start <= k < end ==> (#[trigger] h2.batch[k]).message.grouped_id == Some(
                        grouped_id,
                    ) && h2.batch[k].message.id > h2.cursor.last_msg_id
                &&& end < h2.batch.len() ==> h2.batch[end as int].message.grouped_id != Some(
                    grouped_id,
                )
                &&& !album_seen(h2.batch@, start as int, grouped_id)
            }
        }),
{
    lemma_step_wf(h, now);
    let (h2, a) = h.step(now);
    if let HarvestAction::ForwardAlbum { grouped_id, start, end } = a {
        let hp = match h.phase {
            HarvestPhase::Fetched => Harvest { empty_count: 0, phase: HarvestPhase::Processing, ..h },
            HarvestPhase::ResumeAlbum { end } => {
                let len = end - h.pos;
                let scanned = h.total_scanned + len;
                let processed = h.processed_count + len;
                Harvest {
                    total_scanned: scanned as i64,
                    processed_count: processed as usize,
                    pos: end,
                    cursor: stamped(h.cursor, scanned as i64, h.total_forwarded, now),
                    phase: HarvestPhase::Processing,
                    ..h
                }
            },
            HarvestPhase::ResumeMessage => Harvest {
                pos: (h.pos + 1) as usize,
                cursor: stamped(h.cursor, h.total_scanned, h.total_forwarded, now),
                phase: HarvestPhase::Processing,
                ..h
            },
            _ => h,
        };
        lemma_run_end(hp.batch@, hp.pos + 1, grouped_id);
        assert forall|k: int| start <= k < end implies (#[trigger] h2.batch[k]).message.grouped_id
            == Some(grouped_id) && h2.batch[k].message.id > h2.cursor.last_msg_id by {
            if k > start {
                assert(h2.batch@[start as int].key_le(&h2.batch@[k]));
            }
        }
    }
}

/// A reported forward only ever moves the cursor forward: onto the last
/// message of the album or onto the message forwarded, both newer than it
/// was; any other outcome leaves it where it was.
pub proof fn lemma_cursor_advances(h: Harvest, ok: bool, outcome: SendOutcome)
    requires
        h.wf(),
    ensures
        h.phase is AwaitAlbum ==> h.after_album(ok).cursor.last_msg_id >= h.cursor.last_msg_id,
        h.phase is AwaitAlbum && h.after_album(ok).phase is PauseAlbum ==> {
            let end = h.phase->AwaitAlbum_end;
            &&& h.after_album(ok).cursor.last_msg_id == h.batch[end - 1].message.id
            &&& h.after_album(ok).cursor.last_msg_id > h.cursor.last_msg_id
        },
        h.phase == HarvestPhase::AwaitMessage ==> h.after_message(outcome).cursor.last_msg_id
            >= h.cursor.last_msg_id,
        h.phase == HarvestPhase::AwaitMessage && outcome == SendOutcome::Sent && h.after_message(
            outcome,
        ).phase == HarvestPhase::PauseMessage ==> h.after_message(outcome).cursor.last_msg_id
            == h.batch[h.pos as int].message.id > h.cursor.last_msg_id,
{
    if let HarvestPhase::AwaitAlbum { start, end } = h.phase {
        if start < end - 1 {
            assert(h.batch@[start as int].key_le(&h.batch@[end - 1]));
        }
    }
}

/// The label of a peer for reports: its known name when the identifier is a
/// numeric id with a name in `names`, otherwise `fallback`.
pub fn lookup_name(names: &HashMap<i64, String>, identifier: &str, fallback: &str) -> (r: String)
    ensures
        match parsed_i64(identifier@) {
            Some(id) => if names@.contains_key(id) {
                r@ == names@[id]@
            } else {
                r@ == fallback@
            },
            None => r@ == fallback@,
        },
{
    broadcast use vstd::std_specs::hash::group_hash_axioms;

    match parse_i64(identifier) {
        Some(id) => match names.get(&id) {
            Some(name) => name.clone(),
            None => String::from_str(fallback),
        },
        None => String::from_str(fallback),
    }
}

/// How a failed fetch ends the harvest.
#[derive(Debug, Clone)]
pub enum FetchFailure {
    /// The source cannot be read: the report names the error.
    ReadForbidden(String),
    /// Any other failure, reported as a failure to get messages.
    Other,
}

/// The report prefix of a fetch refused for want of read rights.
pub open spec fn read_forbidden_prefix() -> Seq<char> {
    "来源频道/群组无读取权限: "@
}

/// Classifies a failed fetch by its error text: `CHAT_READ_FORBIDDEN` or
/// `ACCESS_DENIED` in it means the source cannot be read.
pub fn classify_fetch_error(error: &str) -> (r: FetchFailure)
    ensures
        (contains_seq(error@, "CHAT_READ_FORBIDDEN"@) || contains_seq(error@, "ACCESS_DENIED"@))
            ==> (r matches FetchFailure::ReadForbidden(report) && report@ == read_forbidden_prefix()
            + error@),
        !(contains_seq(error@, "CHAT_READ_FORBIDDEN"@) || contains_seq(error@, "ACCESS_DENIED"@))
            ==> r is Other,
{
    let e = chars_of(error);
    let forbidden = chars_of("CHAT_READ_FORBIDDEN");
    let denied = chars_of("ACCESS_DENIED");
    if contains_chars(&e, &forbidden) || contains_chars(&e, &denied) {
        let mut report = String::from_str("来源频道/群组无读取权限: ");
        report.append(error);
        FetchFailure::ReadForbidden(report)
    } else {
        FetchFailure::Other
    }
}

/// A harvest stops at the third batch in a row that holds no message, with
/// its counters as they stand.
pub proof fn lemma_three_empty_batches_stop(h: Harvest, now: String)
    requires
        h.wf(),
        h.phase == HarvestPhase::Fetched,
        h.batch.len() == 0,
        h.empty_count == 2,
    ensures
        h.step(now).1 == (HarvestAction::Finish {
            reason: StopReason::EmptyBatches,
            stats: h.stats_of(),
        }),
{
}

/// The read offset moves only forward, one batch at a time. A step leaves it
/// where it is or moves it on by `batch_size`, and moves it only when a
/// batch came back empty (back to the head of the loop) or when a batch has
/// been worked through. A `Fetch` asks at the offset the step leaves, never
/// past the latest message id plus 100: at the head of the loop at the offset
/// as it stood, after a batch at the next one. Reported outcomes do not move it.
pub proof fn lemma_offset_steps(h: Harvest, now: String, ok: bool, outcome: SendOutcome)
    requires
        h.wf(),
        0 < h.batch_size as i32,
    ensures
        ({
            let (h2, a) = h.step(now);
            &&& h2.offset == h.offset || h2.offset == h.offset + h.batch_size as i32
            &&& h2.offset != h.offset ==> a is EmptyBatch || h.phase is AdvanceOffset
            &&& h.phase is Start ==> h2.offset == h.offset
            &&& a is EmptyBatch ==> h2.phase is Start && h2.offset == h.offset
                + h.batch_size as i32
            &&& h2.phase is Start ==> a is EmptyBatch
            &&& a matches HarvestAction::Fetch { offset, .. } ==> {
                &&& offset == h2.offset
                &&& offset <= h.latest_msg_id + 100
                &&& h.phase is Start || h.phase is AdvanceOffset
                &&& h.phase is AdvanceOffset ==> offset == h.offset + h.batch_size as i32
            }
        }),
        h.after_album(ok).offset == h.offset,
        h.after_message(outcome).offset == h.offset,
{
}

/// Once the read offset lies past the latest message id plus 100, nothing
/// more is fetched: at the head of the loop, or when moving past a batch to
/// such an offset, the harvest finishes.
pub proof fn lemma_past_latest_finishes(h: Harvest, now: String)
    requires
        h.wf(),
        h.latest_msg_id + 100 <= i32::MAX,
        h.phase is Start && h.offset > h.latest_msg_id + 100 || h.phase is AdvanceOffset
            && fits_i32(h.next_offset()) && h.next_offset() > h.latest_msg_id + 100,
    ensures
        h.step(now).1 is Finish,
{
}

/// An album is judged by its first message. When the entry the machine is
/// at opens an album not met before in the batch and newer than the cursor,
/// the album is forwarded, from that entry on, when the filter accepts that
/// first message; otherwise it is skipped as rejected, whatever its other
/// members are (or the counters would overflow).
pub proof fn lemma_album_judged_by_first(h: Harvest, now: String, gid: i64)
    requires
        h.wf(),
        h.phase == HarvestPhase::Processing,
        h.pos < h.batch.len(),
        !(h.limit > 0 && h.processed_count >= h.limit),
        h.batch[h.pos as int].message.grouped_id == Some(gid),
        forall|j: int| 0 <= j < h.pos ==> (#[trigger] h.batch[j]).message.grouped_id != Some(gid),
        h.batch[h.pos as int].message.id > h.cursor.last_msg_id,
    ensures
        h.filter.accepts(h.batch[h.pos as int].message) ==> (h.step(now).1 matches HarvestAction::ForwardAlbum {
            grouped_id,
            start,
            end,
        } && grouped_id == gid && start == h.pos && start < end <= h.batch.len()),
        !h.filter.accepts(h.batch[h.pos as int].message) ==> (h.step(now).1 matches HarvestAction::SkipAlbum {
            grouped_id,
            first_id,
            reason,
            ..
        } && grouped_id == gid && first_id == h.batch[h.pos as int].message.id && reason
            == SkipReason::Rejected) || h.step(now).1 is Overflow,
{
    let b = h.batch@;
    assert(!album_seen(b, h.pos as int, gid));
    lemma_run_end(b, h.pos + 1, gid);
}

/// The count of empty batches counts batches in a row that came back
/// empty: a step on a fetched batch that kept a message sets it to 0, one
/// on an empty batch adds 1, and no other step touches it. So the harvest
/// stops for empty batches only on the third empty batch in a row.
pub proof fn lemma_empty_count_steps(h: Harvest, now: String)
    requires
        h.wf(),
    ensures
        ({
            let (h2, a) = h.step(now);
            &&& h.phase == HarvestPhase::Fetched && h.batch.len() > 0 ==> h2.empty_count == 0
            &&& h.phase == HarvestPhase::Fetched && h.batch.len() == 0 ==> h2.empty_count
                == h.empty_count + 1
            &&& h.phase != HarvestPhase::Fetched ==> h2.empty_count == h.empty_count
            &&& (a matches HarvestAction::Finish { reason, .. } && reason
                == StopReason::EmptyBatches && !(h.phase is Finished)) ==> (h.phase
                == HarvestPhase::Fetched && h.batch.len() == 0 && h.empty_count == 2)
                || h.empty_count >= 3
        }),
{
}

/// Once the task's limit is reached, nothing more is forwarded.
pub proof fn lemma_limit_stops_forwarding(h: Harvest, now: String)
    requires
        h.wf(),
        h.limit > 0,
        h.processed_count >= h.limit,
    ensures
        !(h.step(now).1 is ForwardAlbum),
        !(h.step(now).1 is ForwardMessage),
{
}

/// No step changes the number of messages forwarded: only a reported
/// forward does, by the size of the album or by one.
pub proof fn lemma_forwarded_count(h: Harvest, now: String, ok: bool, outcome: SendOutcome)
    requires
        h.wf(),
    ensures
        h.step(now).0.total_forwarded == h.total_forwarded,
        h.phase is AwaitAlbum && h.after_album(ok).phase is PauseAlbum ==> h.after_album(
            ok,
        ).total_forwarded == h.total_forwarded + (h.phase->AwaitAlbum_end
            - h.phase->AwaitAlbum_start),
        h.phase == HarvestPhase::AwaitMessage && h.after_message(outcome).phase
            == HarvestPhase::PauseMessage ==> h.after_message(outcome).total_forwarded
            == h.total_forwarded + (if outcome == SendOutcome::Sent {
            1int
        } else {
            0
        }),
{
    lemma_step_wf(h, now);
}

} // verus!
