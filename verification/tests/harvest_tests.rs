use std::collections::HashMap;
use tg_harvest::config::{
    ChannelConfig, CommentFilterConfig, FilterConfig, FilterMode, GlobalConfig,
};
use tg_harvest::db::Cursor;
use tg_harvest::filter::{MessageCounters, MessageInfo};
use tg_harvest::harvest::{
    classify_fetch_error, lookup_name, FetchFailure, Harvest, HarvestAction, HarvestStats,
    SendOutcome, SkipReason, StopReason,
};

fn msg(id: i32, grouped_id: Option<i64>, replies: i32) -> MessageInfo {
    MessageInfo {
        id,
        grouped_id,
        has_text: true,
        has_media: false,
        counters: Some(MessageCounters { reactions: None, replies: Some(replies) }),
        date: format!("date-{}", id),
    }
}

fn deleted(id: i32) -> MessageInfo {
    MessageInfo {
        id,
        grouped_id: None,
        has_text: false,
        has_media: false,
        counters: None,
        date: String::new(),
    }
}

fn task(limit: usize, filter: FilterConfig) -> ChannelConfig {
    ChannelConfig { source: "src".to_string(), target: "dst".to_string(), limit, filter }
}

fn global(batch_size: usize) -> GlobalConfig {
    GlobalConfig {
        api_id: 1,
        api_hash: "hash".to_string(),
        forward_delay_ms: 1500,
        batch_size,
    }
}

fn cursor(last_msg_id: i64) -> Cursor {
    Cursor {
        last_msg_id,
        last_msg_date: String::new(),
        last_run_at: String::new(),
        total_scanned: 0,
        total_forwarded: 0,
    }
}

fn now() -> String {
    "2025-01-01T00:00:00+00:00".to_string()
}

#[test]
fn first_run_forwards_singles_and_albums() {
    let mut h = Harvest::new(&task(0, FilterConfig::default()), &global(100), cursor(0), Some(150));
    assert_eq!(h.offset, 100);
    assert_eq!(h.next_action_at(now()), HarvestAction::Fetch { offset: 100, limit: 100 });
    h.batch_fetched(vec![
        msg(99, None, 0),
        deleted(98),
        msg(97, Some(7), 0),
        msg(96, Some(7), 0),
        msg(95, None, 0),
    ]);
    assert_eq!(h.next_action_at(now()), HarvestAction::ForwardMessage { index: 0, position: 4 });
    h.message_result(SendOutcome::Sent);
    assert_eq!(h.cursor.last_msg_id, 95);
    assert_eq!(h.cursor.last_msg_date, "date-95");
    assert_eq!(h.next_action_at(now()), HarvestAction::Pause { millis: 1500 });
    assert_eq!(
        h.next_action_at(now()),
        HarvestAction::ForwardAlbum { grouped_id: 7, start: 1, end: 3 }
    );
    assert_eq!(h.album_positions(1, 3), vec![3, 2]);
    h.album_result(true);
    assert_eq!(h.cursor.last_msg_id, 97);
    assert_eq!(h.total_forwarded, 3);
    assert_eq!(h.next_action_at(now()), HarvestAction::Pause { millis: 1500 });
    assert_eq!(h.next_action_at(now()), HarvestAction::ForwardMessage { index: 3, position: 0 });
    h.message_result(SendOutcome::GaveUp);
    assert_eq!(h.next_action_at(now()), HarvestAction::Pause { millis: 1500 });
    assert_eq!(h.next_action_at(now()), HarvestAction::SaveCursor);
    assert_eq!(h.cursor.last_msg_id, 97);
    assert_eq!(h.cursor.total_scanned, 4);
    assert_eq!(h.cursor.total_forwarded, 3);
    assert_eq!(h.cursor.last_run_at, now());
    assert_eq!(h.next_action_at(now()), HarvestAction::Fetch { offset: 200, limit: 100 });
    h.batch_fetched(vec![]);
    assert_eq!(h.next_action_at(now()), HarvestAction::EmptyBatch { count: 1 });
    let stats = HarvestStats { total_scanned: 4, total_forwarded: 3, total_skipped: 1 };
    assert_eq!(
        h.next_action_at(now()),
        HarvestAction::Finish { reason: StopReason::PastLatest, stats }
    );
    assert_eq!(h.next_action_at(now()), HarvestAction::Finish { reason: StopReason::PastLatest, stats });
}

#[test]
fn resumed_run_starts_100_past_the_cursor_and_skips_forwarded() {
    let mut c = cursor(200);
    c.total_scanned = 50;
    c.total_forwarded = 20;
    let mut h = Harvest::new(&task(0, FilterConfig::default()), &global(100), c, Some(400));
    assert_eq!(h.next_action_at(now()), HarvestAction::Fetch { offset: 300, limit: 100 });
    h.batch_fetched(vec![msg(201, None, 0), msg(200, None, 0), msg(150, Some(3), 0), msg(149, Some(3), 0)]);
    assert_eq!(
        h.next_action_at(now()),
        HarvestAction::SkipAlbum {
            grouped_id: 3,
            first_id: 149,
            len: 2,
            reason: SkipReason::AlreadyForwarded
        }
    );
    assert_eq!(
        h.next_action_at(now()),
        HarvestAction::SkipMessage { id: 200, reason: SkipReason::AlreadyForwarded }
    );
    assert_eq!(h.next_action_at(now()), HarvestAction::ForwardMessage { index: 3, position: 0 });
    assert_eq!(h.total_scanned, 54);
    assert_eq!(h.total_skipped, 3);
}

#[test]
fn three_empty_batches_stop_a_resumed_run() {
    let mut h = Harvest::new(&task(0, FilterConfig::default()), &global(100), cursor(10), Some(100_000));
    for k in 1..=2 {
        assert!(matches!(h.next_action_at(now()), HarvestAction::Fetch { .. }));
        h.batch_fetched(vec![deleted(5)]);
        assert_eq!(h.next_action_at(now()), HarvestAction::EmptyBatch { count: k });
    }
    assert!(matches!(h.next_action_at(now()), HarvestAction::Fetch { .. }));
    h.batch_fetched(vec![]);
    assert_eq!(
        h.next_action_at(now()),
        HarvestAction::Finish {
            reason: StopReason::EmptyBatches,
            stats: HarvestStats { total_scanned: 0, total_forwarded: 0, total_skipped: 0 }
        }
    );
}

#[test]
fn three_empty_batches_stop_a_first_run() {
    let mut h = Harvest::new(&task(0, FilterConfig::default()), &global(100), cursor(0), Some(350));
    for (offset, count) in [(100, 1), (200, 2)] {
        assert_eq!(h.next_action_at(now()), HarvestAction::Fetch { offset, limit: 100 });
        h.batch_fetched(vec![]);
        assert_eq!(h.next_action_at(now()), HarvestAction::EmptyBatch { count });
    }
    assert_eq!(h.next_action_at(now()), HarvestAction::Fetch { offset: 300, limit: 100 });
    h.batch_fetched(vec![]);
    assert!(matches!(
        h.next_action_at(now()),
        HarvestAction::Finish { reason: StopReason::EmptyBatches, .. }
    ));
}

#[test]
fn limit_stops_the_run() {
    let mut h = Harvest::new(&task(2, FilterConfig::default()), &global(100), cursor(0), Some(50));
    assert!(matches!(h.next_action_at(now()), HarvestAction::Fetch { .. }));
    h.batch_fetched(vec![msg(3, None, 0), msg(2, None, 0), msg(1, None, 0)]);
    assert_eq!(h.next_action_at(now()), HarvestAction::ForwardMessage { index: 0, position: 2 });
    h.message_result(SendOutcome::Sent);
    assert_eq!(h.next_action_at(now()), HarvestAction::Pause { millis: 1500 });
    assert_eq!(h.next_action_at(now()), HarvestAction::ForwardMessage { index: 1, position: 1 });
    h.message_result(SendOutcome::Sent);
    assert_eq!(h.next_action_at(now()), HarvestAction::Pause { millis: 1500 });
    assert_eq!(h.next_action_at(now()), HarvestAction::SaveCursor);
    assert!(matches!(
        h.next_action_at(now()),
        HarvestAction::Finish { reason: StopReason::LimitReached, .. }
    ));
    assert_eq!(h.cursor.last_msg_id, 2);
}

#[test]
fn rejected_messages_and_repeated_album_members() {
    let filter = FilterConfig {
        mode: FilterMode::Any,
        reactions: None,
        comments: Some(CommentFilterConfig { min: 5 }),
    };
    let mut h = Harvest::new(&task(0, filter), &global(100), cursor(0), Some(50));
    assert!(matches!(h.next_action_at(now()), HarvestAction::Fetch { .. }));
    h.batch_fetched(vec![msg(12, Some(1), 9), msg(11, None, 1), msg(10, Some(1), 0)]);
    assert_eq!(
        h.next_action_at(now()),
        HarvestAction::SkipAlbum { grouped_id: 1, first_id: 10, len: 1, reason: SkipReason::Rejected }
    );
    assert_eq!(
        h.next_action_at(now()),
        HarvestAction::SkipMessage { id: 11, reason: SkipReason::Rejected }
    );
    assert_eq!(h.next_action_at(now()), HarvestAction::SkipMember { id: 12 });
    assert_eq!(h.next_action_at(now()), HarvestAction::SaveCursor);
    assert_eq!(h.total_scanned, 2);
    assert_eq!(h.total_skipped, 2);
}

#[test]
fn failed_forward_stops() {
    let mut h = Harvest::new(&task(0, FilterConfig::default()), &global(10), cursor(0), Some(50));
    assert!(matches!(h.next_action_at(now()), HarvestAction::Fetch { offset: 100, limit: 10 }));
    h.batch_fetched(vec![msg(4, Some(2), 0), msg(3, Some(2), 0)]);
    assert_eq!(h.next_action_at(now()), HarvestAction::ForwardAlbum { grouped_id: 2, start: 0, end: 2 });
    h.album_result(false);
    assert_eq!(h.next_action_at(now()), HarvestAction::Stop);
    assert_eq!(h.cursor.last_msg_id, 0);
}

#[test]
fn empty_source_reports_zero() {
    let mut c = cursor(5);
    c.total_scanned = 9;
    let mut h = Harvest::new(&task(0, FilterConfig::default()), &global(100), c, None);
    assert_eq!(
        h.next_action_at(now()),
        HarvestAction::Finish {
            reason: StopReason::NoMessages,
            stats: HarvestStats { total_scanned: 0, total_forwarded: 0, total_skipped: 0 }
        }
    );
}

#[test]
fn out_of_range_cursor_overflows() {
    let mut h = Harvest::new(&task(0, FilterConfig::default()), &global(100), cursor(i64::MAX), Some(1));
    assert_eq!(h.next_action_at(now()), HarvestAction::Overflow);
    let mut g = Harvest::new(&task(0, FilterConfig::default()), &global(100), cursor(0), Some(i32::MAX));
    assert_eq!(g.next_action_at(now()), HarvestAction::Overflow);
}

#[test]
fn waiting_machine_is_idle() {
    let mut h = Harvest::new(&task(0, FilterConfig::default()), &global(100), cursor(0), Some(10));
    assert!(matches!(h.next_action_at(now()), HarvestAction::Fetch { .. }));
    assert_eq!(h.next_action_at(now()), HarvestAction::Idle);
}

#[test]
fn fetch_errors() {
    match classify_fetch_error("rpc error 400: CHAT_READ_FORBIDDEN") {
        FetchFailure::ReadForbidden(report) => {
            assert_eq!(report, "来源频道/群组无读取权限: rpc error 400: CHAT_READ_FORBIDDEN")
        },
        _ => panic!("expected a read refusal"),
    }
    assert!(matches!(classify_fetch_error("ACCESS_DENIED"), FetchFailure::ReadForbidden(_)));
    assert!(matches!(classify_fetch_error("timeout"), FetchFailure::Other));
}

#[test]
fn peer_labels() {
    let mut names = HashMap::new();
    names.insert(42i64, "Forty Two".to_string());
    assert_eq!(lookup_name(&names, "42", "42"), "Forty Two");
    assert_eq!(lookup_name(&names, "43", "fallback"), "fallback");
    assert_eq!(lookup_name(&names, "news", "news"), "news");
}
