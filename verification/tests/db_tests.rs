use tg_harvest::db::Cursor;

#[test]
fn fresh_cursor() {
    let c = Cursor::fresh("2024-05-01T12:00:00+00:00".to_string());
    assert_eq!(c.last_msg_id, 0);
    assert_eq!(c.last_msg_date, "");
    assert_eq!(c.total_scanned, 0);
    assert_eq!(c.total_forwarded, 0);
    assert_eq!(c.last_run_at, "2024-05-01T12:00:00+00:00");
}

#[test]
fn stored_cursor_is_kept() {
    let stored = Cursor {
        last_msg_id: 77,
        last_msg_date: "2024-01-01T00:00:00+00:00".to_string(),
        last_run_at: "2024-01-02T00:00:00+00:00".to_string(),
        total_scanned: 10,
        total_forwarded: 3,
    };
    let c = Cursor::or_default(Some(stored), "2024-06-01T00:00:00+00:00".to_string());
    assert_eq!(c.last_msg_id, 77);
    assert_eq!(c.total_scanned, 10);
    assert_eq!(c.last_run_at, "2024-01-02T00:00:00+00:00");
    let d = Cursor::or_default(None, "2024-06-01T00:00:00+00:00".to_string());
    assert_eq!(d.last_run_at, "2024-06-01T00:00:00+00:00");
    assert_eq!(d.last_msg_date, "");
    assert_eq!(d.last_msg_id, 0);
    assert_eq!(d.total_forwarded, 0);
}
