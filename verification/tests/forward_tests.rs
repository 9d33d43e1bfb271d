use tg_harvest::forward::{
    forward_failure_text, is_admin_required, parse_flood_wait, peer_lookup, rand_id,
    rand_id_from, PeerLookup, RetryDecision, RetryState,
};

#[test]
fn flood_wait_with_suffix() {
    assert_eq!(parse_flood_wait("FLOOD_WAIT_31"), Some(31));
    assert_eq!(parse_flood_wait("rpc error FLOOD_WAIT_7"), Some(7));
    assert_eq!(parse_flood_wait("FLOOD_WAIT_7 seconds"), Some(7));
    assert_eq!(
        parse_flood_wait("rpc error 420: FLOOD_WAIT_30 caused by messages.forwardMessages"),
        Some(30)
    );
    assert_eq!(parse_flood_wait("FLOOD_WAIT_"), None);
    assert_eq!(parse_flood_wait("FLOOD_WAIT_x 12"), None);
    assert_eq!(parse_flood_wait("FLOOD_WAIT_-3"), Some(-3));
    assert_eq!(parse_flood_wait("FLOOD_WAIT_+4 more"), Some(4));
    assert_eq!(parse_flood_wait("FLOOD_WAIT_-"), None);
    assert_eq!(parse_flood_wait("FLOOD_WAIT_99999999999"), None);
}

#[test]
fn flood_wait_without_suffix_collects_digits() {
    let debug = "Failed to forward message: Rpc(RpcError { code: 420, name: \"FLOOD_WAIT\", value: Some(31) })";
    assert_eq!(parse_flood_wait(debug), Some(42031));
    assert_eq!(parse_flood_wait("FLOOD_WAIT 3 0"), Some(30));
    assert_eq!(parse_flood_wait("FLOOD_WAIT"), None);
    assert_eq!(parse_flood_wait("FLOOD_WAIT 99999999999"), None);
}

#[test]
fn no_flood_wait() {
    assert_eq!(parse_flood_wait("CHAT_WRITE_FORBIDDEN"), None);
    assert_eq!(parse_flood_wait(""), None);
}

#[test]
fn forward_failure_reports() {
    assert_eq!(
        forward_failure_text("rpc error 400: CHAT_ADMIN_REQUIRED", "Rpc(..)"),
        "目标频道缺少管理员权限，无法转发消息"
    );
    assert_eq!(
        forward_failure_text("timeout", "Timeout"),
        "Failed to forward message: Timeout"
    );
    assert!(is_admin_required("目标频道缺少管理员权限，无法转发消息"));
    assert!(!is_admin_required("Failed to forward message: Timeout"));
}

#[test]
fn peer_lookup_by_id_or_name() {
    match peer_lookup("1234") {
        PeerLookup::ById(id) => assert_eq!(id, 1234),
        _ => panic!("expected an id"),
    }
    match peer_lookup("-1001234") {
        PeerLookup::ById(id) => assert_eq!(id, -1001234),
        _ => panic!("expected an id"),
    }
    match peer_lookup("news_channel") {
        PeerLookup::ByUsername(name) => assert_eq!(name, "news_channel"),
        _ => panic!("expected a username"),
    }
}

#[test]
fn random_ids() {
    assert_eq!(rand_id_from(5), 5);
    assert_eq!(rand_id_from(i64::MAX as u128), 0);
    assert_eq!(rand_id_from(i64::MAX as u128 + 12), 12);
    let r = rand_id().expect("clock after 1970");
    assert!(r >= 0 && r < i64::MAX);
}

#[test]
fn retries_back_off_then_give_up() {
    let mut s = RetryState::new(2);
    assert_eq!(s.on_failure("timeout"), RetryDecision::Backoff { doublings: 1 });
    assert_eq!(s.on_failure("timeout"), RetryDecision::Backoff { doublings: 2 });
    assert_eq!(s.on_failure("timeout"), RetryDecision::GiveUp);
    assert_eq!(s.attempt, 3);
}

#[test]
fn flood_wait_resets_backoff() {
    let mut s = RetryState::new(5);
    assert_eq!(s.on_failure("timeout"), RetryDecision::Backoff { doublings: 1 });
    assert_eq!(s.on_failure("FLOOD_WAIT_12"), RetryDecision::FloodWait { seconds: 12 });
    assert_eq!(s.doublings, 0);
    assert_eq!(s.on_failure("timeout"), RetryDecision::Backoff { doublings: 1 });
    assert_eq!(s.attempt, 3);
}

#[test]
fn admin_refusal_aborts_at_once() {
    let mut s = RetryState::new(5);
    assert_eq!(s.on_failure("目标频道缺少管理员权限，无法转发消息"), RetryDecision::Abort);
    assert_eq!(s.attempt, 0);
}

#[test]
fn no_retries_gives_up_on_first_failure() {
    let mut s = RetryState::new(0);
    assert_eq!(s.on_failure("FLOOD_WAIT_3"), RetryDecision::GiveUp);
}

#[test]
fn admin_refusal_aborts_even_at_the_counter_limit() {
    let mut s = RetryState::new(u32::MAX);
    s.attempt = u32::MAX;
    assert_eq!(s.on_failure("目标频道缺少管理员权限，无法转发消息"), RetryDecision::Abort);
    assert_eq!(s.attempt, u32::MAX);
}
