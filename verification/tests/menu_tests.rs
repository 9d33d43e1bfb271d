use tg_harvest::auth::{after_sign_in, check_session, check_signed_in, SignInAnswer, SignInNext};
use tg_harvest::config::{
    ChannelConfig, CommentFilterConfig, FilterConfig, FilterMode, ReactionFilterConfig,
};
use tg_harvest::forward::{peer_lookup, PeerLookup};
use tg_harvest::harvest::HarvestStats;
use tg_harvest::interactive::ChannelInfo;
use tg_harvest::menu::{
    add_stats, channel_identifier, menu_choice, task_label, MenuChoice, TaskAction,
    MAX_CONCURRENT_TASKS,
};

#[test]
fn menu_selection() {
    assert_eq!(menu_choice(0, 2), MenuChoice::Task(0));
    assert_eq!(menu_choice(1, 2), MenuChoice::Task(1));
    assert_eq!(menu_choice(2, 2), MenuChoice::RunAll);
    assert_eq!(menu_choice(3, 2), MenuChoice::AddTask);
    assert_eq!(menu_choice(4, 2), MenuChoice::Exit);
    assert_eq!(menu_choice(5, 2), MenuChoice::Invalid);
    assert_eq!(MAX_CONCURRENT_TASKS, 3);
    assert_eq!(TaskAction::from_index(0), Some(TaskAction::Run));
    assert_eq!(TaskAction::from_index(3), Some(TaskAction::Back));
    assert_eq!(TaskAction::from_index(4), None);
}

#[test]
fn task_labels() {
    let mut cfg = ChannelConfig {
        source: "a".to_string(),
        target: "b".to_string(),
        limit: 0,
        filter: FilterConfig {
            mode: FilterMode::Any,
            reactions: Some(ReactionFilterConfig { specific: vec![], min_specific_total: 5 }),
            comments: Some(CommentFilterConfig { min: 3 }),
        },
    };
    assert_eq!(task_label("A", "B", &cfg), "A -> B (限制: 全部, 过滤: reactions>=5)");
    cfg.limit = 20;
    cfg.filter.reactions = None;
    assert_eq!(task_label("A", "B", &cfg), "A -> B (限制: 20, 过滤: comments>=3)");
    cfg.filter.comments = None;
    assert_eq!(task_label("A", "B", &cfg), "A -> B (限制: 20, 过滤: 无过滤)");
}

#[test]
fn chosen_channel_names() {
    let named = ChannelInfo { id: 7, name: "N".to_string(), username: Some("news".to_string()), is_channel: true };
    assert_eq!(channel_identifier(&named), "news");
    let bare = ChannelInfo { id: 1234567, name: "N".to_string(), username: None, is_channel: true };
    let ident = channel_identifier(&bare);
    assert_eq!(ident, "1234567");
    match peer_lookup(&ident) {
        PeerLookup::ById(id) => assert_eq!(id, 1234567),
        _ => panic!("a numeric identifier is looked up by id"),
    }
}

#[test]
fn stats_add_up() {
    let a = HarvestStats { total_scanned: 1, total_forwarded: 2, total_skipped: 3 };
    let b = HarvestStats { total_scanned: 10, total_forwarded: 20, total_skipped: 30 };
    assert_eq!(add_stats(a, b), Some(HarvestStats { total_scanned: 11, total_forwarded: 22, total_skipped: 33 }));
    let big = HarvestStats { total_scanned: i64::MAX, total_forwarded: 0, total_skipped: 0 };
    assert_eq!(add_stats(big, b), None);
}

#[test]
fn sign_in_steps() {
    assert!(check_session(true).is_ok());
    assert_eq!(
        check_session(false).unwrap_err(),
        "Session not authorized. Please run the program first to authenticate."
    );
    assert!(matches!(after_sign_in(SignInAnswer::SignedIn), SignInNext::Verify));
    match after_sign_in(SignInAnswer::PasswordRequired { hint: Some("pet".to_string()) }) {
        SignInNext::AskPassword { prompt } => assert_eq!(prompt, "Enter your 2FA password (hint: pet)"),
        _ => panic!("expected a password prompt"),
    }
    match after_sign_in(SignInAnswer::PasswordRequired { hint: None }) {
        SignInNext::AskPassword { prompt } => assert_eq!(prompt, "Enter your 2FA password (hint: )"),
        _ => panic!("expected a password prompt"),
    }
    match after_sign_in(SignInAnswer::SignUpRequired) {
        SignInNext::Refuse { report } => assert_eq!(report, "This account has not signed up yet."),
        _ => panic!("expected a refusal"),
    }
    assert!(matches!(after_sign_in(SignInAnswer::Failed), SignInNext::PassOn));
    assert_eq!(check_signed_in(false).unwrap_err(), "Authentication failed");
}
